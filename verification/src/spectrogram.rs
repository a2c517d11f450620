//! Spectrogram engine and cache: the framing geometry, the decibel
//! normalization, and the parameter-keyed validity rule of the cached image.
//!
//! The short-time analysis of a column works on a window of `fft_size`
//! samples centred on a sample index; out-of-bounds indices read as silence.
//! The Fourier transform itself and the decibel conversion are the rendering
//! pipeline's floating-point work; everything they need around it — which
//! samples feed a column, where the columns sit, what a decibel value
//! normalizes to, when the cache may serve a crop — is exact integer
//! arithmetic and lives here.

use vstd::arithmetic::div_mod::{
    lemma_div_is_ordered, lemma_div_multiples_vanish, lemma_div_pos_is_pos,
    lemma_multiply_divide_lt,
};
use vstd::prelude::*;

use crate::arith::{lemma_div_bounded, spec_clamp};
use crate::audio::{AudioData, MAX_SAMPLES, MAX_SAMPLE_RATE};
use crate::timeline::{MAX_PPS_MILLI, MIN_PPS_MILLI};
use crate::MAX_TIME_US;

verus! {

/// Normalized intensities are thousandths: 1000 is full scale.
pub const NORM_SCALE: i64 = 1000;

/// Decibel values are carried in centi-decibels; this magnitude bound (a
/// hundred thousand decibels) is far beyond any signal.
pub const MAX_DB_CENTI: i64 = 10_000_000;

/// Most columns one analysis may produce.
pub const MAX_COLUMNS: usize = 1_000_000;

/// The analysis window sizes the engine supports.
pub open spec fn valid_fft_size(n: int) -> bool {
    n == 512 || n == 1024 || n == 2048 || n == 4096
}

/// The sample that offset `i` of a frame centred on `center` reads: the mono
/// sample at `center - fft_size / 2 + i`, or silence outside the track.
pub open spec fn spec_frame_sample(mono: Seq<i32>, fft_size: int, center: int, i: int) -> i32 {
    let idx = center - fft_size / 2 + i;
    if 0 <= idx < mono.len() {
        mono[idx]
    } else {
        0
    }
}

/// Normalized intensity of a decibel value, in thousandths:
/// `(db - min_db) / (max_db - min_db)` clamped into `[0, 1]`.
pub open spec fn spec_normalize_db(db: int, min_db: int, max_db: int) -> int {
    spec_clamp((db - min_db) * NORM_SCALE / (max_db - min_db), 0, NORM_SCALE as int)
}

/// The spectrogram engine's configuration: one analysis window size. A new
/// window size means a new engine (the rendering pipeline rebuilds its
/// window table and transform plan from it).
pub struct Spectrogram {
    pub fft_size: usize,
}

impl Spectrogram {
    pub open spec fn wf(&self) -> bool {
        valid_fft_size(self.fft_size as int)
    }

    pub fn new(fft_size: usize) -> (r: Spectrogram)
        requires
            valid_fft_size(fft_size as int),
        ensures
            r.fft_size == fft_size,
            r.wf(),
    {
        Spectrogram { fft_size }
    }

    /// The frame of `fft_size` mono samples centred on `center`: sample
    /// `center - fft_size / 2 + i` at offset `i`, silence outside the track.
    /// This is the exact input of one column's transform, before windowing.
    #[verifier::loop_isolation(false)]
    pub fn frame_samples(&self, audio: &AudioData, center: i64) -> (r: Vec<i32>)
        requires
            self.wf(),
            audio.wf(),
            -1_000_000_000_000_000 <= center <= 1_000_000_000_000_000,
        ensures
            r@.len() == self.fft_size,
            forall|i: int|
                0 <= i < r@.len() ==> #[trigger] r@[i] == spec_frame_sample(
                    audio.mono_samples@,
                    self.fft_size as int,
                    center as int,
                    i,
                ),
    {
        let half = (self.fft_size / 2) as i64;
        let n = self.fft_size;
        let mono_len = audio.mono_samples.len();
        let mut out: Vec<i32> = Vec::new();
        let mut i: usize = 0;
        while i < n
            invariant
                i <= n,
                out@.len() == i,
                forall|j: int|
                    0 <= j < i ==> #[trigger] out@[j] == spec_frame_sample(
                        audio.mono_samples@,
                        self.fft_size as int,
                        center as int,
                        j,
                    ),
            decreases n - i,
        {
            let idx = center - half + (i as i64);
            let v = if idx >= 0 && idx < mono_len as i64 {
                audio.mono_samples[idx as usize]
            } else {
                0
            };
            out.push(v);
            i = i + 1;
        }
        out
    }

    /// Centre sample of each of `columns` evenly spaced analysis columns
    /// covering `[start_sample, end_sample)`: `start + i * (end - start) /
    /// columns`, each centre rounded to the nearest sample (ties up).
    #[verifier::loop_isolation(false)]
    pub fn column_centers(&self, start_sample: i64, end_sample: i64, columns: usize) -> (r: Vec<
        i64,
    >)
        requires
            0 <= start_sample <= end_sample,
            end_sample - start_sample <= MAX_SAMPLES,
            end_sample <= 2 * MAX_SAMPLES,
            1 <= columns <= MAX_COLUMNS,
        ensures
            r@.len() == columns,
            forall|i: int|
                0 <= i < r@.len() ==> #[trigger] r@[i] == start_sample + (2 * i * (end_sample
                    - start_sample) + columns) / (2 * columns as int),
    {
        let span = end_sample - start_sample;
        let mut out: Vec<i64> = Vec::new();
        let mut i: usize = 0;
        while i < columns
            invariant
                i <= columns,
                out@.len() == i,
                forall|j: int|
                    0 <= j < i ==> #[trigger] out@[j] == start_sample + (2 * j * span + columns) / (
                    2 * columns as int),
            decreases columns - i,
        {
            proof {
                assert(0 <= 2 * i * span + columns <= (MAX_SAMPLES + 1) * (2 * columns as int))
                    by (nonlinear_arith)
                    requires
                        0 <= i < columns <= 1_000_000,
                        0 <= span <= MAX_SAMPLES,
                ;
                lemma_div_pos_is_pos((2 * i * span + columns) as int, 2 * columns as int);
                lemma_div_bounded(
                    (2 * i * span + columns) as int,
                    2 * columns as int,
                    MAX_SAMPLES + 1,
                );
            }
            let step = (2 * (i as i64) * span + (columns as i64)) / (2 * (columns as i64));
            out.push(start_sample + step);
            i = i + 1;
        }
        out
    }
}

/// The sample index at `us` microseconds under a given sample rate:
/// `us * rate / 1_000_000`, rounded to the nearest whole sample (ties up).
pub fn sample_index_of_us(us: i64, sample_rate: u32) -> (r: i64)
    requires
        0 <= us <= 2 * MAX_TIME_US,
        1 <= sample_rate <= MAX_SAMPLE_RATE,
    ensures
        r == (us as int * sample_rate + 500_000) / 1_000_000,
        0 <= r <= 2 * MAX_SAMPLES,
{
    proof {
        assert(0 <= us * sample_rate <= 2_000_000_000_000_000_000i64) by (nonlinear_arith)
            requires
                0 <= us <= 2 * MAX_TIME_US,
                1 <= sample_rate <= MAX_SAMPLE_RATE,
        ;
        lemma_div_pos_is_pos(us as int * sample_rate + 500_000, 1_000_000);
        lemma_div_bounded(us as int * sample_rate + 500_000, 1_000_000, 2 * MAX_SAMPLES);
    }
    (us * (sample_rate as i64) + 500_000) / 1_000_000
}

/// Normalizes a decibel value (centi-decibels) against the dB window
/// `[min_db, max_db)` into thousandths of full intensity, clamped to
/// `[0, 1000]`. This is the last, exact step of a column's per-bin pipeline.
pub fn normalize_db(db: i64, min_db: i64, max_db: i64) -> (r: i64)
    requires
        min_db < max_db,
        -MAX_DB_CENTI <= db <= MAX_DB_CENTI,
        -MAX_DB_CENTI <= min_db <= MAX_DB_CENTI,
        -MAX_DB_CENTI <= max_db <= MAX_DB_CENTI,
    ensures
        r == spec_normalize_db(db as int, min_db as int, max_db as int),
        0 <= r <= NORM_SCALE,
{
    let width = max_db - min_db;
    if db <= min_db {
        proof {
            if db < min_db {
                lemma_div_neg_num((db - min_db) * NORM_SCALE, width as int);
                assert((db - min_db) * NORM_SCALE <= -1 * NORM_SCALE < 0) by (nonlinear_arith)
                    requires
                        db - min_db <= -1,
                ;
            } else {
                assert((db - min_db) * NORM_SCALE == 0) by (nonlinear_arith)
                    requires
                        db == min_db,
                ;
                vstd::arithmetic::div_mod::lemma_div_of0(width as int);
            }
        }
        0
    } else if db >= max_db {
        proof {
            lemma_div_multiples_vanish(NORM_SCALE as int, width as int);
            assert(width * NORM_SCALE <= (db - min_db) * NORM_SCALE) by (nonlinear_arith)
                requires
                    0 < width <= db - min_db,
            ;
            lemma_div_is_ordered(
                (width * NORM_SCALE) as int,
                ((db - min_db) * NORM_SCALE) as int,
                width as int,
            );
        }
        NORM_SCALE
    } else {
        proof {
            assert(0 <= (db - min_db) * NORM_SCALE < NORM_SCALE * width) by (nonlinear_arith)
                requires
                    0 < db - min_db < width,
                    NORM_SCALE == 1000,
            ;
            lemma_div_pos_is_pos((db - min_db) * NORM_SCALE, width as int);
            lemma_multiply_divide_lt((db - min_db) * NORM_SCALE, width as int, NORM_SCALE as int);
        }
        ((db - min_db) * NORM_SCALE) / width
    }
}

/// A negative dividend keeps a positive-divisor quotient negative.
proof fn lemma_div_neg_num(a: int, b: int)
    requires
        a < 0,
        0 < b,
    ensures
        a / b < 0,
{
    vstd::arithmetic::div_mod::lemma_fundamental_div_mod(a, b);
    vstd::arithmetic::div_mod::lemma_mod_division_less_than_divisor(a, b);
    assert(a / b < 0) by (nonlinear_arith)
        requires
            a == b * (a / b) + a % b,
            a < 0,
            0 <= a % b < b,
    ;
}

/// Law: whatever decibel value the transform hands over, the normalized
/// intensity lies in `[0, 1]` (in thousandths).
pub proof fn lemma_normalized_intensity_in_unit_range(db: int, min_db: int, max_db: int)
    ensures
        0 <= spec_normalize_db(db, min_db, max_db) <= NORM_SCALE,
{
}

/// Law: the framing of a column is a function of its arguments alone — two
/// frames built from the same audio, window size and centre are equal. (The
/// normalization is a spec function outright, so its determinism needs no
/// statement.)
pub proof fn lemma_column_inputs_deterministic(
    a: Seq<i32>,
    b: Seq<i32>,
    mono: Seq<i32>,
    fft_size: int,
    center: int,
)
    requires
        a.len() == fft_size,
        b.len() == fft_size,
        forall|i: int| 0 <= i < a.len() ==> #[trigger] a[i] == spec_frame_sample(
            mono,
            fft_size,
            center,
            i,
        ),
        forall|i: int| 0 <= i < b.len() ==> #[trigger] b[i] == spec_frame_sample(
            mono,
            fft_size,
            center,
            i,
        ),
    ensures
        a == b,
{
    assert(a =~= b);
}

/// One rendered spectrogram image is valid for exactly one parameter tuple:
/// the covered time range, the window size, the decibel window and the zoom
/// level. The rendering layer pairs a value of this type with its image
/// handle; a request it cannot serve replaces both wholesale, and a new
/// audio file or a colormap change (the image holds pre-colored pixels)
/// drops the pair outright.
pub struct CachedSpectrogram {
    pub start_us: i64,
    pub end_us: i64,
    pub fft_size: usize,
    pub min_db: i64,
    pub max_db: i64,
    pub pps_milli: i64,
}

impl CachedSpectrogram {
    pub open spec fn wf(&self) -> bool {
        &&& 0 <= self.start_us < self.end_us <= 2 * MAX_TIME_US
        &&& valid_fft_size(self.fft_size as int)
        &&& -MAX_DB_CENTI <= self.min_db <= MAX_DB_CENTI
        &&& -MAX_DB_CENTI <= self.max_db <= MAX_DB_CENTI
        &&& MIN_PPS_MILLI <= self.pps_milli <= MAX_PPS_MILLI
    }

    pub fn new(
        start_us: i64,
        end_us: i64,
        fft_size: usize,
        min_db: i64,
        max_db: i64,
        pps_milli: i64,
    ) -> (r: CachedSpectrogram)
        requires
            0 <= start_us < end_us <= 2 * MAX_TIME_US,
            valid_fft_size(fft_size as int),
            -MAX_DB_CENTI <= min_db <= MAX_DB_CENTI,
            -MAX_DB_CENTI <= max_db <= MAX_DB_CENTI,
            MIN_PPS_MILLI <= pps_milli <= MAX_PPS_MILLI,
        ensures
            r == (CachedSpectrogram { start_us, end_us, fft_size, min_db, max_db, pps_milli }),
            r.wf(),
    {
        CachedSpectrogram { start_us, end_us, fft_size, min_db, max_db, pps_milli }
    }

    /// Whether the cached image may serve this request: it must cover the
    /// whole visible range, at the same window size, with both decibel
    /// bounds within slider jitter (a tenth of a decibel) and the zoom level
    /// exactly unchanged.
    pub open spec fn spec_is_valid(
        &self,
        vis_start: int,
        vis_end: int,
        fft_size: int,
        min_db: int,
        max_db: int,
        pps_milli: int,
    ) -> bool {
        &&& self.start_us <= vis_start
        &&& self.end_us >= vis_end
        &&& self.fft_size == fft_size
        &&& -10 < self.min_db - min_db < 10
        &&& -10 < self.max_db - max_db < 10
        &&& self.pps_milli == pps_milli
    }

    /// Decides a cache hit; see `spec_is_valid` for the rule.
    pub fn is_valid(
        &self,
        vis_start: i64,
        vis_end: i64,
        fft_size: usize,
        min_db: i64,
        max_db: i64,
        pps_milli: i64,
    ) -> (r: bool)
        requires
            self.wf(),
            -MAX_DB_CENTI <= min_db <= MAX_DB_CENTI,
            -MAX_DB_CENTI <= max_db <= MAX_DB_CENTI,
        ensures
            r == self.spec_is_valid(
                vis_start as int,
                vis_end as int,
                fft_size as int,
                min_db as int,
                max_db as int,
                pps_milli as int,
            ),
    {
        self.start_us <= vis_start && self.end_us >= vis_end && self.fft_size == fft_size
            && self.min_db - min_db < 10 && min_db - self.min_db < 10 && self.max_db - max_db < 10
            && max_db - self.max_db < 10 && self.pps_milli == pps_milli
    }

    /// Texture-space crop of the visible range within the cached range, in
    /// millionths: `(vis - start) / (end - start)` for both edges. The crop
    /// of a range the cache covers always lies within the unit square.
    pub fn uv(&self, vis_start: i64, vis_end: i64) -> (r: (i64, i64))
        requires
            self.wf(),
            self.start_us <= vis_start <= vis_end <= self.end_us,
        ensures
            r.0 == (vis_start - self.start_us) * 1_000_000 / (self.end_us - self.start_us) as int,
            r.1 == (vis_end - self.start_us) * 1_000_000 / (self.end_us - self.start_us) as int,
            0 <= r.0 <= r.1 <= 1_000_000,
    {
        let len = self.end_us - self.start_us;
        proof {
            let a = (vis_start - self.start_us) * 1_000_000;
            let b = (vis_end - self.start_us) * 1_000_000;
            assert(0 <= a <= b <= len * 1_000_000 <= 4_000_000_000_000_000_000i64)
                by (nonlinear_arith)
                requires
                    0 <= vis_start - self.start_us <= vis_end - self.start_us <= len <= 2
                        * MAX_TIME_US,
                    a == (vis_start - self.start_us) * 1_000_000,
                    b == (vis_end - self.start_us) * 1_000_000,
            ;
            lemma_div_pos_is_pos(a, len as int);
            lemma_div_is_ordered(a, b, len as int);
            lemma_div_multiples_vanish(1_000_000, len as int);
            assert(len * 1_000_000 == 1_000_000 * len) by (nonlinear_arith);
            lemma_div_is_ordered(b, len * 1_000_000, len as int);
        }
        (
            ((vis_start - self.start_us) * 1_000_000) / len,
            ((vis_end - self.start_us) * 1_000_000) / len,
        )
    }
}

/// Which two frequency bins colour the pixel row `y` of an image `height`
/// pixels tall, and how far between them it sits (in thousandths): row 0 is
/// the top, the bins spread linearly from bin 0 at the bottom row to the
/// last bin at the top row.
pub fn bin_interpolation(height: usize, y: usize, freq_bins: usize) -> (r: (usize, usize, i64))
    requires
        1 <= height <= 1_000_000,
        y < height,
        1 <= freq_bins <= 2048,
    ensures
        r.0 == (height - 1 - y) * (freq_bins - 1) / height as int,
        r.1 == (if r.0 + 1 < freq_bins {
            r.0 + 1int
        } else {
            freq_bins - 1
        }),
        r.2 == (height - 1 - y) * (freq_bins - 1) % height as int * 1000 / height as int,
        r.0 <= r.1 < freq_bins,
        0 <= r.2 < 1000,
    {
    proof {
        assert(0 <= (height - 1 - y) * (freq_bins - 1) <= 1_000_000 * 2048) by (nonlinear_arith)
            requires
                0 <= height - 1 - y < height <= 1_000_000,
                0 <= freq_bins - 1 < 2048,
        ;
    }
    let num = (height - 1 - y) as i64 * (freq_bins - 1) as i64;
    proof {
        lemma_div_pos_is_pos(num as int, height as int);
        assert(num <= (freq_bins - 1) * (height as int)) by (nonlinear_arith)
            requires
                num == (height - 1 - y) * (freq_bins - 1),
                0 <= height - 1 - y < height,
                0 <= freq_bins - 1,
        ;
        lemma_div_multiples_vanish((freq_bins - 1) as int, height as int);
        assert((height as int) * ((freq_bins - 1) as int) == (freq_bins - 1) as int * (height
            as int)) by (nonlinear_arith);
        lemma_div_is_ordered(num as int, (freq_bins - 1) as int * (height as int), height as int);
        vstd::arithmetic::div_mod::lemma_mod_division_less_than_divisor(num as int, height as int);
        assert(num % (height as i64) * 1000 < 1000 * (height as int)) by (nonlinear_arith)
            requires
                0 <= num % (height as i64) < height,
        ;
        lemma_div_pos_is_pos(num % (height as i64) * 1000, height as int);
        lemma_multiply_divide_lt(num % (height as i64) * 1000, height as int, 1000);
    }
    let bin_lo = (num / (height as i64)) as usize;
    let frac_milli = (num % (height as i64)) * 1000 / (height as i64);
    let bin_hi = if bin_lo + 1 < freq_bins {
        bin_lo + 1
    } else {
        freq_bins - 1
    };
    (bin_lo, bin_hi, frac_milli)
}

/// The region a cache miss recomputes: the visible range widened by a
/// quarter of its length on each side, clamped to the track.
pub fn expanded_range(vis_start: i64, vis_end: i64, duration: i64) -> (r: (i64, i64))
    requires
        0 <= vis_start <= vis_end <= 2 * MAX_TIME_US,
        0 <= duration <= MAX_TIME_US,
    ensures
        r.0 == {
            let lo = vis_start - (vis_end - vis_start) / 4;
            if lo > 0 {
                lo
            } else {
                0
            }
        },
        r.1 == {
            let hi = vis_end + (vis_end - vis_start) / 4;
            if hi < duration {
                hi
            } else {
                duration as int
            }
        },
        0 <= r.0,
        r.1 <= duration,
    {
    proof {
        lemma_div_pos_is_pos((vis_end - vis_start) as int, 4);
        lemma_div_bounded((vis_end - vis_start) as int, 4, 2 * MAX_TIME_US);
    }
    let margin = (vis_end - vis_start) / 4;
    let lo = vis_start - margin;
    let hi = vis_end + margin;
    (if lo > 0 { lo } else { 0 }, if hi < duration { hi } else { duration })
}

/// Width in columns of the recomputed image: scaled up from the viewport
/// width by the ratio of the expanded span to the visible span, so the
/// per-pixel density stays constant.
pub fn expanded_columns(span_us: i64, vis_len_us: i64, width_px: i64) -> (r: i64)
    requires
        0 < vis_len_us <= 2 * MAX_TIME_US,
        0 <= span_us <= 2 * MAX_TIME_US,
        0 <= width_px <= 1_000_000,
    ensures
        r == span_us as int * width_px / vis_len_us as int,
        r >= 0,
{
    proof {
        assert(0 <= span_us * width_px <= 2_000_000_000_000_000_000i64) by (nonlinear_arith)
            requires
                0 <= span_us <= 2 * MAX_TIME_US,
                0 <= width_px <= 1_000_000,
        ;
        lemma_div_pos_is_pos((span_us * width_px) as int, vis_len_us as int);
        lemma_div_bounded((span_us * width_px) as int, vis_len_us as int, 2_000_000_000_000_000_000);
    }
    (span_us * width_px) / vis_len_us
}

/// What one render request resolves to: serve a crop of the cached image, or
/// recompute a widened region and replace the cache wholesale.
#[derive(Clone, Copy, PartialEq, Eq, Structural, Debug)]
pub enum CacheDecision {
    Hit { u_from: i64, u_to: i64 },
    Miss { start_us: i64, end_us: i64, columns: i64 },
}

/// Resolves a render request for the visible range against the cache: a hit
/// — every parameter matches and the cached range covers the request — is
/// served as a texture crop without recomputation; anything else recomputes
/// the expanded region at a proportional column count.
pub fn plan_render(
    cache: &Option<CachedSpectrogram>,
    vis_start: i64,
    vis_end: i64,
    fft_size: usize,
    min_db: i64,
    max_db: i64,
    pps_milli: i64,
    duration: i64,
    width_px: i64,
) -> (r: CacheDecision)
    requires
        0 <= vis_start < vis_end <= 2 * MAX_TIME_US,
        0 <= duration <= MAX_TIME_US,
        0 <= width_px <= 1_000_000,
        -MAX_DB_CENTI <= min_db <= MAX_DB_CENTI,
        -MAX_DB_CENTI <= max_db <= MAX_DB_CENTI,
        match *cache {
            Option::Some(c) => c.wf(),
            Option::None => true,
        },
    ensures
        match r {
            CacheDecision::Hit { u_from, u_to } => {
                &&& match *cache {
                    Option::Some(c) => {
                        &&& c.spec_is_valid(
                            vis_start as int,
                            vis_end as int,
                            fft_size as int,
                            min_db as int,
                            max_db as int,
                            pps_milli as int,
                        )
                        &&& u_from == (vis_start - c.start_us) * 1_000_000 / (c.end_us
                            - c.start_us) as int
                        &&& u_to == (vis_end - c.start_us) * 1_000_000 / (c.end_us
                            - c.start_us) as int
                        &&& 0 <= u_from <= u_to <= 1_000_000
                    },
                    Option::None => false,
                }
            },
            CacheDecision::Miss { start_us, end_us, columns } => {
                &&& match *cache {
                    Option::Some(c) => !c.spec_is_valid(
                        vis_start as int,
                        vis_end as int,
                        fft_size as int,
                        min_db as int,
                        max_db as int,
                        pps_milli as int,
                    ),
                    Option::None => true,
                }
                &&& start_us == {
                    let lo = vis_start - (vis_end - vis_start) / 4;
                    if lo > 0 {
                        lo
                    } else {
                        0
                    }
                }
                &&& end_us == {
                    let hi = vis_end + (vis_end - vis_start) / 4;
                    if hi < duration {
                        hi
                    } else {
                        duration as int
                    }
                }
                &&& columns == (if end_us - start_us > 0 {
                    end_us - start_us
                } else {
                    0
                }) * width_px / (vis_end - vis_start) as int
            },
        },
{
    if let Option::Some(c) = cache {
        if c.is_valid(vis_start, vis_end, fft_size, min_db, max_db, pps_milli) {
            let (u_from, u_to) = c.uv(vis_start, vis_end);
            return CacheDecision::Hit { u_from, u_to };
        }
    }
    let (start_us, end_us) = expanded_range(vis_start, vis_end, duration);
    proof {
        lemma_div_pos_is_pos((vis_end - vis_start) as int, 4);
        crate::arith::lemma_div_bounded((vis_end - vis_start) as int, 4, 2 * MAX_TIME_US);
    }
    let span = if end_us > start_us {
        end_us - start_us
    } else {
        0
    };
    let columns = expanded_columns(span, vis_end - vis_start, width_px);
    CacheDecision::Miss { start_us, end_us, columns }
}

} // verus!
