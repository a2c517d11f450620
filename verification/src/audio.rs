//! Decoded PCM audio, as the analysis pipeline reads it.
//!
//! Sample values are 16-bit-scale fixed point carried in `i32` (32768 is
//! full scale); decoding itself is a collaborator's job, the model here only
//! derives the mono mix and the bookkeeping the analysis needs.

use vstd::prelude::*;

verus! {

/// Most samples a track may hold (machine limit, about 4 terabytes).
pub const MAX_SAMPLES: i64 = 0x100_0000_0000;

/// Highest sample rate the model accepts, in Hz (far above any audio
/// hardware; keeps time/sample conversions within `i64`).
pub const MAX_SAMPLE_RATE: u32 = 1_000_000;

/// Integer division truncating toward zero, the rounding that the sample
/// averaging uses.
pub open spec fn spec_trunc_div(a: int, b: int) -> int {
    if a >= 0 {
        a / b
    } else {
        -((-a) / b)
    }
}

/// Sum of `s[from..to]`, as a mathematical integer.
pub open spec fn spec_sample_sum(s: Seq<i32>, from: int, to: int) -> int
    decreases to - from,
{
    if from >= to {
        0
    } else {
        s[to - 1] + spec_sample_sum(s, from, to - 1)
    }
}

/// The mono value of frame `i`: the truncated average of its (up to
/// `channels`) interleaved samples.
pub open spec fn spec_mono_sample(s: Seq<i32>, channels: int, i: int) -> int {
    let from = i * channels;
    let to = if from + channels <= s.len() {
        from + channels
    } else {
        s.len() as int
    };
    spec_trunc_div(spec_sample_sum(s, from, to), channels)
}

/// How many mono frames the interleaved samples make: one per full chunk of
/// `channels` samples, plus one for a trailing partial chunk.
pub open spec fn spec_mono_len(len: int, channels: int) -> int {
    (len + channels - 1) / channels
}

/// Decoded audio: interleaved `samples`, the derived per-frame mono mix,
/// and the clock data the viewport and the analysis read.
pub struct AudioData {
    pub samples: Vec<i32>,
    pub mono_samples: Vec<i32>,
    pub sample_rate: u32,
    pub channels: u16,
    pub duration_us: i64,
}

impl AudioData {
    /// The derived fields agree with the samples: the mono mix is the
    /// per-frame truncated average, and the duration is the mono length over
    /// the sample rate.
    pub open spec fn wf(&self) -> bool {
        &&& 1 <= self.sample_rate <= MAX_SAMPLE_RATE
        &&& 1 <= self.channels
        &&& self.samples@.len() <= MAX_SAMPLES
        &&& self.mono_samples@.len() == spec_mono_len(
            self.samples@.len() as int,
            self.channels as int,
        )
        &&& forall|i: int|
            0 <= i < self.mono_samples@.len() ==> #[trigger] self.mono_samples@[i]
                == spec_mono_sample(self.samples@, self.channels as int, i)
        &&& self.duration_us == self.mono_samples@.len() as int * 1_000_000 / self.sample_rate as int
    }

    /// Builds the audio model from decoded interleaved samples: derives the
    /// mono mix and the duration.
    pub fn new(samples: Vec<i32>, sample_rate: u32, channels: u16) -> (r: AudioData)
        requires
            1 <= sample_rate <= MAX_SAMPLE_RATE,
            1 <= channels,
            samples@.len() <= MAX_SAMPLES,
        ensures
            r.samples@ == samples@,
            r.sample_rate == sample_rate,
            r.channels == channels,
            r.wf(),
    {
        let mono_samples = mono_from_interleaved(&samples, channels);
        proof {
            assert(mono_samples@.len() * 1_000_000 <= MAX_SAMPLES * 1_000_000) by (nonlinear_arith)
                requires
                    mono_samples@.len() <= MAX_SAMPLES,
            ;
            vstd::arithmetic::div_mod::lemma_div_pos_is_pos(
                mono_samples@.len() as int * 1_000_000,
                sample_rate as int,
            );
            vstd::arithmetic::div_mod::lemma_div_nonincreasing(
                mono_samples@.len() as int * 1_000_000,
                sample_rate as int,
            );
        }
        let duration_us = ((mono_samples.len() as i64) * 1_000_000) / (sample_rate as i64);
        AudioData { samples, mono_samples, sample_rate, channels, duration_us }
    }

    /// Index of the interleaved sample playing at `us` microseconds, capped
    /// at the end of the track.
    pub fn us_to_idx(&self, us: i64) -> (r: usize)
        requires
            self.wf(),
            0 <= us <= crate::MAX_TIME_US,
        ensures
            r == {
                let idx = us as int * self.sample_rate / 1_000_000 * self.channels;
                if idx < self.samples@.len() {
                    idx
                } else {
                    self.samples@.len() as int
                }
            },
    {
        proof {
            assert(us * self.sample_rate <= 1_000_000_000_000_000_000i64) by (nonlinear_arith)
                requires
                    0 <= us <= crate::MAX_TIME_US,
                    self.sample_rate <= MAX_SAMPLE_RATE,
            ;
            vstd::arithmetic::div_mod::lemma_div_pos_is_pos(
                us as int * self.sample_rate,
                1_000_000,
            );
            crate::arith::lemma_div_bounded(
                us as int * self.sample_rate,
                1_000_000,
                1_000_000_000_000,
            );
        }
        let frame = (us * (self.sample_rate as i64)) / 1_000_000;
        proof {
            assert(frame * self.channels <= 1_000_000_000_000i64 * 65536) by (nonlinear_arith)
                requires
                    0 <= frame <= 1_000_000_000_000i64,
                    0 < self.channels <= u16::MAX,
            ;
            assert(frame * self.channels >= 0) by (nonlinear_arith)
                requires
                    0 <= frame,
                    0 < self.channels,
            ;
        }
        let idx = frame * (self.channels as i64);
        let len = self.samples.len();
        if idx < len as i64 {
            idx as usize
        } else {
            len
        }
    }

    /// Time, in microseconds, at which the interleaved sample `idx` plays.
    pub fn idx_to_us(&self, idx: usize) -> (r: i64)
        requires
            self.wf(),
            idx <= self.samples@.len(),
        ensures
            r == idx as int / self.channels as int * 1_000_000 / self.sample_rate as int,
    {
        let frame = (idx as i64) / (self.channels as i64);
        proof {
            vstd::arithmetic::div_mod::lemma_div_pos_is_pos(idx as int, self.channels as int);
            vstd::arithmetic::div_mod::lemma_div_nonincreasing(idx as int, self.channels as int);
            assert(frame * 1_000_000 <= MAX_SAMPLES * 1_000_000) by (nonlinear_arith)
                requires
                    0 <= frame <= MAX_SAMPLES,
            ;
            vstd::arithmetic::div_mod::lemma_div_pos_is_pos(
                frame as int * 1_000_000,
                self.sample_rate as int,
            );
            vstd::arithmetic::div_mod::lemma_div_nonincreasing(
                frame as int * 1_000_000,
                self.sample_rate as int,
            );
        }
        (frame * 1_000_000) / (self.sample_rate as i64)
    }
}

/// Mixes interleaved samples down to one truncated average per frame, the
/// mono signal the spectrogram analyses.
#[verifier::loop_isolation(false)]
pub fn mono_from_interleaved(samples: &Vec<i32>, channels: u16) -> (r: Vec<i32>)
    requires
        1 <= channels,
        samples@.len() <= MAX_SAMPLES,
    ensures
        r@.len() == spec_mono_len(samples@.len() as int, channels as int),
        r@.len() <= samples@.len(),
        forall|i: int|
            0 <= i < r@.len() ==> #[trigger] r@[i] == spec_mono_sample(
                samples@,
                channels as int,
                i,
            ),
{
    let ch = channels as usize;
    let n = samples.len();
    let mut out: Vec<i32> = Vec::new();
    let mut start: usize = 0;
    let ghost slen = samples@.len() as int;
    proof {
        vstd::arithmetic::div_mod::lemma_basic_div(ch as int - 1, ch as int);
        assert(out@.len() * ch == 0) by (nonlinear_arith)
            requires
                out@.len() == 0,
        ;
    }
    while start < n
        invariant
            1 <= ch <= u16::MAX,
            ch == channels,
            n == slen,
            slen <= MAX_SAMPLES,
            start <= n,
            start == out@.len() * ch || start == n,
            out@.len() == spec_mono_len(start as int, channels as int),
            out@.len() <= start,
            forall|i: int|
                0 <= i < out@.len() ==> #[trigger] out@[i] == spec_mono_sample(
                    samples@,
                    channels as int,
                    i,
                ),
        decreases n - start,
    {
        let ghost f = out@.len() as int;
        proof {
            // The loop only continues on a chunk boundary: a partial chunk is
            // always the last one.
            assert(start == f * ch);
        }
        let stop = if n - start >= ch {
            start + ch
        } else {
            n
        };
        let mut sum: i64 = 0;
        let mut j: usize = start;
        while j < stop
            invariant
                start <= j <= stop <= n,
                n == samples@.len(),
                stop - start <= ch <= u16::MAX,
                sum == spec_sample_sum(samples@, start as int, j as int),
                -0x8000_0000i64 * (j - start) <= sum <= 0x7FFF_FFFFi64 * (j - start),
            decreases stop - j,
        {
            let v = samples[j];
            proof {
                assert(-0x8000_0000i64 * (j + 1 - start) <= sum + v <= 0x7FFF_FFFFi64 * (j + 1
                    - start)) by (nonlinear_arith)
                    requires
                        -0x8000_0000i64 * (j - start) <= sum <= 0x7FFF_FFFFi64 * (j - start),
                        -0x8000_0000 <= v <= 0x7FFF_FFFF,
                ;
            }
            sum = sum + (v as i64);
            j = j + 1;
        }
        proof {
            let m = stop - start;
            assert(-0x8000_0000i64 * (ch as int) <= sum <= 0x7FFF_FFFFi64 * (ch as int))
                by (nonlinear_arith)
                requires
                    -0x8000_0000i64 * m <= sum <= 0x7FFF_FFFFi64 * m,
                    0 <= m <= ch,
                    ch <= u16::MAX,
            ;
        }
        let avg: i64 = if sum >= 0 {
            proof {
                crate::arith::lemma_div_bounded(sum as int, ch as int, 0x7FFF_FFFFi64 as int);
                assert(0x7FFF_FFFFi64 * (ch as int) == (ch as int) * 0x7FFF_FFFFi64)
                    by (nonlinear_arith);
            }
            sum / (ch as i64)
        } else {
            proof {
                crate::arith::lemma_div_bounded(-(sum as int), ch as int, 0x8000_0000i64 as int);
                assert(0x8000_0000i64 * (ch as int) == (ch as int) * 0x8000_0000i64)
                    by (nonlinear_arith);
            }
            -((-sum) / (ch as i64))
        };
        proof {
            assert(avg == spec_mono_sample(samples@, channels as int, f));
            assert((f + 1) * ch == f * ch + ch) by (nonlinear_arith);
            crate::arith::lemma_ceil_div(stop as int, ch as int, f + 1);
        }
        out.push(avg as i32);
        start = stop;
    }
    proof {
        if n == 0 {
            assert(spec_mono_len(0, channels as int) == 0) by {
                vstd::arithmetic::div_mod::lemma_fundamental_div_mod_converse(
                    channels as int - 1,
                    channels as int,
                    0,
                    channels as int - 1,
                );
            }
        }
    }
    out
}

} // verus!
