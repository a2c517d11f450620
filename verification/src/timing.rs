//! Tempo sections and the beat-grid tick generator.
//!
//! A timing point declares a tempo from its offset until the next timing
//! point (or the end of the audio). Offsets are microseconds, tempos are
//! milli-BPM, so the subdivision grid is exact integer arithmetic.

use vstd::arithmetic::div_mod::{lemma_div_is_ordered, lemma_div_pos_is_pos};
use vstd::prelude::*;

use crate::arith::{lemma_div_in_range, lemma_mul_div_le};
use crate::MAX_TIME_US;

verus! {

/// Highest tempo the model accepts, in milli-BPM (one million BPM); keeps
/// every subdivision at least a few microseconds long.
pub const MAX_BPM_MILLI: i64 = 1_000_000_000;

/// One minute in microseconds, times the milli-BPM scale: dividing it by a
/// tempo in milli-BPM gives the beat length in microseconds.
pub const US_MILLI_PER_MINUTE: i64 = 60_000_000_000;

/// Relies on `rand::random`: draws a value from the thread-local generator.
/// Nothing can be promised of a random value, so there is no `ensures`.
pub assume_specification<T>[ rand::random::<T> ]() -> (r: T)
    where
        rand::distributions::Standard: rand::distributions::Distribution<T>,
;

/// A tempo declaration: from `offset` (microseconds) the track runs at `bpm`
/// (milli-BPM) with `signature.0` beats per measure. The `id` is an identity
/// token that survives edits, so history entries can find the point again.
#[derive(Clone, Copy, Debug)]
pub struct TimingPoint {
    pub id: u128,
    pub offset: i64,
    pub bpm: i64,
    pub signature: (u32, u32),
}

impl TimingPoint {
    /// The point lies in the supported time range, its tempo is positive and
    /// bounded, and its measure has at least one beat.
    pub open spec fn wf(&self) -> bool {
        &&& 0 <= self.offset <= MAX_TIME_US
        &&& 1 <= self.bpm <= MAX_BPM_MILLI
        &&& 1 <= self.signature.0
    }

    /// A fresh timing point with a random identity token and a 4/4 signature.
    pub fn new(offset: i64, bpm: i64) -> (r: TimingPoint)
        requires
            0 <= offset <= MAX_TIME_US,
            1 <= bpm <= MAX_BPM_MILLI,
        ensures
            r.offset == offset,
            r.bpm == bpm,
            r.signature == (4u32, 4u32),
            r.wf(),
    {
        TimingPoint { id: rand::random::<u128>(), offset, bpm, signature: (4, 4) }
    }

    pub fn id(&self) -> (r: u128)
        ensures
            r == self.id,
    {
        self.id
    }

    /// Length of one beat in microseconds.
    pub open spec fn spec_us_per_beat(&self) -> int {
        US_MILLI_PER_MINUTE as int / self.bpm as int
    }

    /// Length of one beat of this section, in microseconds.
    pub fn us_per_beat(&self) -> (r: i64)
        requires
            self.wf(),
        ensures
            r == self.spec_us_per_beat(),
            60 <= r <= US_MILLI_PER_MINUTE,
    {
        proof {
            lemma_div_in_range(US_MILLI_PER_MINUTE as int, self.bpm as int, 60, MAX_BPM_MILLI as int);
        }
        US_MILLI_PER_MINUTE / self.bpm
    }
}

/// Musical classification of one subdivision tick, from strongest (first
/// tick of a measure) to weakest; rendering derives height and stroke width
/// from it.
#[derive(Clone, Copy, PartialEq, Eq, Structural, Debug)]
pub enum SnapDivision {
    Downbeat,
    Beat,
    Half,
    Third,
    Quarter,
    Sixth,
    Eighth,
    Twelfth,
    Sixteenth,
    Other,
}

/// The classification rule: the checks run in this fixed priority order and
/// the first match wins; the order is normative, not derived.
pub open spec fn spec_from_tick(in_beat: int, divisor: int, in_measure: int) -> SnapDivision {
    if in_beat == 0 {
        if in_measure == 0 {
            SnapDivision::Downbeat
        } else {
            SnapDivision::Beat
        }
    } else if (in_beat * 2) % divisor == 0 {
        SnapDivision::Half
    } else if (in_beat * 3) % divisor == 0 {
        SnapDivision::Third
    } else if (in_beat * 4) % divisor == 0 {
        SnapDivision::Quarter
    } else if (in_beat * 6) % divisor == 0 {
        SnapDivision::Sixth
    } else if (in_beat * 8) % divisor == 0 {
        SnapDivision::Eighth
    } else if (in_beat * 12) % divisor == 0 {
        SnapDivision::Twelfth
    } else if (in_beat * 16) % divisor == 0 {
        SnapDivision::Sixteenth
    } else {
        SnapDivision::Other
    }
}

impl SnapDivision {
    /// Classifies the tick at position `in_beat` within its beat (a residue
    /// modulo `divisor`) and `in_measure` within its measure.
    pub fn from_tick(in_beat: i64, divisor: i64, in_measure: i64) -> (r: SnapDivision)
        requires
            1 <= divisor <= 16,
            0 <= in_beat < divisor,
            0 <= in_measure,
        ensures
            r == spec_from_tick(in_beat as int, divisor as int, in_measure as int),
    {
        if in_beat == 0 {
            if in_measure == 0 {
                return SnapDivision::Downbeat;
            }
            return SnapDivision::Beat;
        }
        if (in_beat * 2) % divisor == 0 {
            return SnapDivision::Half;
        }
        if (in_beat * 3) % divisor == 0 {
            return SnapDivision::Third;
        }
        if (in_beat * 4) % divisor == 0 {
            return SnapDivision::Quarter;
        }
        if (in_beat * 6) % divisor == 0 {
            return SnapDivision::Sixth;
        }
        if (in_beat * 8) % divisor == 0 {
            return SnapDivision::Eighth;
        }
        if (in_beat * 12) % divisor == 0 {
            return SnapDivision::Twelfth;
        }
        if (in_beat * 16) % divisor == 0 {
            return SnapDivision::Sixteenth;
        }
        SnapDivision::Other
    }

    /// Rendering height of the tick, as thousandths of the lane height.
    pub fn height_milli(&self) -> (r: u32)
        ensures
            r == match self {
                SnapDivision::Downbeat => 1000u32,
                SnapDivision::Beat => 800u32,
                SnapDivision::Half => 650u32,
                SnapDivision::Third => 550u32,
                SnapDivision::Quarter => 480u32,
                SnapDivision::Sixth => 420u32,
                SnapDivision::Eighth => 380u32,
                SnapDivision::Twelfth => 340u32,
                SnapDivision::Sixteenth => 300u32,
                SnapDivision::Other => 450u32,
            },
    {
        match self {
            SnapDivision::Downbeat => 1000,
            SnapDivision::Beat => 800,
            SnapDivision::Half => 650,
            SnapDivision::Third => 550,
            SnapDivision::Quarter => 480,
            SnapDivision::Sixth => 420,
            SnapDivision::Eighth => 380,
            SnapDivision::Twelfth => 340,
            SnapDivision::Sixteenth => 300,
            SnapDivision::Other => 450,
        }
    }

    /// Stroke width of the tick, as thousandths of a pixel.
    pub fn width_milli(&self) -> (r: u32)
        ensures
            r == match self {
                SnapDivision::Downbeat => 2500u32,
                SnapDivision::Beat => 2000u32,
                SnapDivision::Half => 1500u32,
                _ => 1000u32,
            },
    {
        match self {
            SnapDivision::Downbeat => 2500,
            SnapDivision::Beat => 2000,
            SnapDivision::Half => 1500,
            _ => 1000,
        }
    }
}

/// The timing point the two-click tempo tap makes: the offset is the earlier
/// click rounded to a whole millisecond, the tempo is one beat per gap,
/// rounded to a hundredth of a BPM; two clicks in the same instant fall back
/// to 120 BPM.
pub open spec fn spec_tap_tempo(start: int, click: int) -> (int, int) {
    let lo = if start < click {
        start
    } else {
        click
    };
    let delta = if start < click {
        click - start
    } else {
        start - click
    };
    let offset = (lo + 500) / 1000 * 1000;
    let bpm = if delta > 0 {
        (12_000_000_000 + delta) / (2 * delta) * 10
    } else {
        120_000
    };
    (offset, bpm)
}

/// Turns the two clicks of the tempo-tap gesture (microseconds) into the
/// offset and tempo of the new timing point.
pub fn tap_tempo(start: i64, click: i64) -> (r: (i64, i64))
    requires
        0 <= start <= MAX_TIME_US,
        0 <= click <= MAX_TIME_US,
    ensures
        r.0 == spec_tap_tempo(start as int, click as int).0,
        r.1 == spec_tap_tempo(start as int, click as int).1,
        0 <= r.0 <= MAX_TIME_US,
        0 <= r.1,
{
    let lo = if start < click {
        start
    } else {
        click
    };
    let delta = if start < click {
        click - start
    } else {
        start - click
    };
    proof {
        lemma_div_pos_is_pos(lo + 500, 1000);
        lemma_div_is_ordered(lo + 500, MAX_TIME_US + 500, 1000);
        vstd::arithmetic::div_mod::lemma_fundamental_div_mod_converse(
            MAX_TIME_US + 500,
            1000,
            1_000_000_000,
            500,
        );
        assert((MAX_TIME_US + 500) as int == 1_000_000_000 * 1000 + 500) by (nonlinear_arith);
    }
    let q = (lo + 500) / 1000;
    proof {
        assert(0 <= q * 1000 <= 1_000_000_000_000i64) by (nonlinear_arith)
            requires
                0 <= q <= 1_000_000_000,
        ;
    }
    let offset = q * 1000;
    let bpm = if delta > 0 {
        proof {
            lemma_div_pos_is_pos(12_000_000_000 + delta, 2 * delta);
            vstd::arithmetic::div_mod::lemma_div_nonincreasing(12_000_000_000 + delta, 2 * delta);
        }
        let ghost c = (12_000_000_000 + delta as int) / (2 * delta as int);
        proof {
            assert(0 <= c * 10 <= 20_000_000_000_000i64) by (nonlinear_arith)
                requires
                    0 <= c <= 2_000_000_000_000i64,
            ;
        }
        ((12_000_000_000 + delta) / (2 * delta)) * 10
    } else {
        120_000
    };
    (offset, bpm)
}

/// Length of one subdivision tick in microseconds: the beat length divided
/// by the snap divisor, rounded down once.
pub open spec fn spec_us_per_tick(bpm: int, divisor: int) -> int {
    US_MILLI_PER_MINUTE as int / (bpm * divisor)
}

/// Where the section of `tps[i]` ends: at the next timing point, or at the
/// end of the audio for the last section.
pub open spec fn spec_section_end(tps: Seq<TimingPoint>, i: int, duration: int) -> int {
    if i + 1 < tps.len() {
        tps[i + 1].offset as int
    } else {
        duration
    }
}

/// Time of the `k`-th subdivision tick of the section, in microseconds.
pub open spec fn spec_tick_time(tp: TimingPoint, divisor: int, k: int) -> int {
    tp.offset + k * spec_us_per_tick(tp.bpm as int, divisor)
}

/// Classification of the `k`-th tick: its residue within the beat and its
/// beat's residue within the measure decide it.
pub open spec fn spec_tick_class(tp: TimingPoint, divisor: int, k: int) -> SnapDivision {
    spec_from_tick(k % divisor, divisor, (k / divisor) % (tp.signature.0 as int))
}

/// First enumerated tick index of a section clipped to `[start, end)`: the
/// last tick at or before the clipped start.
pub open spec fn spec_first_tick_index(tp: TimingPoint, divisor: int, start: int) -> int {
    let lo = if start > tp.offset { start as int } else { tp.offset as int };
    (lo - tp.offset) / spec_us_per_tick(tp.bpm as int, divisor)
}

/// The ticks that the first `n` enumerated candidates of one section
/// contribute: candidate `k` is emitted when it lies at or after the clipped
/// start and strictly before the section end.
pub open spec fn spec_section_ticks_upto(
    tp: TimingPoint,
    send: int,
    divisor: int,
    start: int,
    n: nat,
) -> Seq<(i64, SnapDivision)>
    decreases n,
{
    if n == 0 {
        Seq::empty()
    } else {
        let prev = spec_section_ticks_upto(tp, send, divisor, start, (n - 1) as nat);
        let lo = if start > tp.offset {
            start as int
        } else {
            tp.offset as int
        };
        let k = spec_first_tick_index(tp, divisor, start) + n - 1;
        let t = spec_tick_time(tp, divisor, k);
        if t >= lo && t < send {
            prev.push((t as i64, spec_tick_class(tp, divisor, k)))
        } else {
            prev
        }
    }
}

/// How many candidates one section enumerates: every tick index from the
/// first one up to the last whose time is at or before the clipped end.
pub open spec fn spec_section_tick_count(
    tp: TimingPoint,
    send: int,
    divisor: int,
    start: int,
    end: int,
) -> nat {
    let lo = if start > tp.offset {
        start as int
    } else {
        tp.offset as int
    };
    let hi = if end < send {
        end
    } else {
        send
    };
    if lo >= hi {
        0
    } else {
        let upt = spec_us_per_tick(tp.bpm as int, divisor);
        let k0 = (lo - tp.offset) / upt;
        let kmax = (hi - tp.offset) / upt;
        (kmax - k0 + 1) as nat
    }
}

/// All ticks one section contributes to the requested range.
pub open spec fn spec_section_ticks(
    tps: Seq<TimingPoint>,
    i: int,
    divisor: int,
    duration: int,
    start: int,
    end: int,
) -> Seq<(i64, SnapDivision)> {
    let tp = tps[i];
    let send = spec_section_end(tps, i, duration);
    spec_section_ticks_upto(
        tp,
        send,
        divisor,
        start,
        spec_section_tick_count(tp, send, divisor, start, end),
    )
}

/// Ticks of the first `i` sections, concatenated in section order.
pub open spec fn spec_beat_ticks_upto(
    tps: Seq<TimingPoint>,
    divisor: int,
    duration: int,
    start: int,
    end: int,
    i: nat,
) -> Seq<(i64, SnapDivision)>
    decreases i,
{
    if i == 0 {
        Seq::empty()
    } else {
        spec_beat_ticks_upto(tps, divisor, duration, start, end, (i - 1) as nat)
            + spec_section_ticks(tps, i - 1, divisor, duration, start, end)
    }
}

/// Every subdivision tick of the grid that the timing points `tps` define
/// over `[start, end)`, section by section.
pub open spec fn spec_beat_ticks(
    tps: Seq<TimingPoint>,
    divisor: int,
    duration: int,
    start: int,
    end: int,
) -> Seq<(i64, SnapDivision)> {
    spec_beat_ticks_upto(tps, divisor, duration, start, end, tps.len())
}

/// The collection is ordered by offset.
pub open spec fn sorted_by_offset(s: Seq<TimingPoint>) -> bool {
    forall|i: int, j: int|
        0 <= i <= j < s.len() ==> #[trigger] s[i].offset <= #[trigger] s[j].offset
}

/// The ordered collection of timing points of a session. The field stays
/// private so that every mutation re-establishes the sort order that the
/// section-boundary logic of the tick generator depends on.
pub struct TimingPoints {
    points: Vec<TimingPoint>,
}

impl View for TimingPoints {
    type V = Seq<TimingPoint>;

    closed spec fn view(&self) -> Seq<TimingPoint> {
        self.points@
    }
}

impl TimingPoints {
    /// Every point is well formed and the collection is sorted by offset.
    pub open spec fn wf(&self) -> bool {
        &&& sorted_by_offset(self@)
        &&& forall|i: int| 0 <= i < self@.len() ==> #[trigger] self@[i].wf()
    }

    pub fn new() -> (r: TimingPoints)
        ensures
            r@ == Seq::<TimingPoint>::empty(),
            r.wf(),
    {
        TimingPoints { points: Vec::new() }
    }

    pub fn len(&self) -> (r: usize)
        ensures
            r == self@.len(),
    {
        self.points.len()
    }

    pub fn get(&self, i: usize) -> (r: TimingPoint)
        requires
            i < self@.len(),
        ensures
            r == self@[i as int],
    {
        self.points[i]
    }

    /// A snapshot of the collection in offset order, for export.
    pub fn to_vec(&self) -> (r: Vec<TimingPoint>)
        ensures
            r@ == self@,
    {
        let mut out: Vec<TimingPoint> = Vec::new();
        let mut i: usize = 0;
        while i < self.points.len()
            invariant
                i <= self.points.len(),
                out@ == self@.subrange(0, i as int),
            decreases self.points.len() - i,
        {
            out.push(self.points[i]);
            proof {
                assert(out@ =~= self@.subrange(0, i + 1 as int));
            }
            i = i + 1;
        }
        proof {
            assert(out@ =~= self@);
        }
        out
    }

    /// Inserts a point at its sorted position: after every point whose offset
    /// is at or before its own, as the stable sort of the editor would.
    pub fn insert(&mut self, tp: TimingPoint)
        requires
            old(self).wf(),
            tp.wf(),
            old(self)@.len() < 1_000_000,
        ensures
            final(self).wf(),
            final(self)@.len() == old(self)@.len() + 1,
            exists|k: int|
                0 <= k <= old(self)@.len() && final(self)@ == #[trigger] old(self)@.insert(k, tp),
            final(self)@.to_multiset() == old(self)@.to_multiset().insert(tp),
            final(self)@.contains(tp),
    {
        let mut k: usize = 0;
        while k < self.points.len() && self.points[k].offset <= tp.offset
            invariant
                k <= self@.len(),
                forall|j: int| 0 <= j < k ==> #[trigger] self@[j].offset <= tp.offset,
                self@ == old(self)@,
            decreases self.points.len() - k,
        {
            k = k + 1;
        }
        proof {
            old(self)@.to_multiset_ensures();
        }
        self.points.insert(k, tp);
        proof {
            let s = old(self)@;
            assert(self@ == s.insert(k as int, tp));
            lemma_insert_sorted(s, tp, k as int);
            lemma_insert_multiset(s, tp, k as int);
            assert(self@[k as int] == tp);
        }
    }

    /// Removes every point carrying the given identity token.
    pub fn remove_by_id(&mut self, id: u128)
        requires
            old(self).wf(),
        ensures
            final(self).wf(),
            final(self)@ == spec_remove_id(old(self)@, id),
    {
        let n = self.points.len();
        let mut out: Vec<TimingPoint> = Vec::new();
        let mut i: usize = 0;
        while i < n
            invariant
                n == self@.len(),
                i <= n,
                self@ == old(self)@,
                out@ == spec_remove_id(self@.subrange(0, i as int), id),
            decreases n - i,
        {
            let tp = self.points[i];
            proof {
                assert(self@.subrange(0, i + 1 as int).drop_last() =~= self@.subrange(0, i as int));
                assert(self@.subrange(0, i + 1 as int).last() == tp);
            }
            if tp.id() != id {
                out.push(tp);
            }
            i = i + 1;
        }
        proof {
            assert(self@.subrange(0, n as int) =~= self@);
            lemma_remove_id_props(old(self)@, id);
        }
        self.points = out;
    }

    /// Enumerates every subdivision tick of the beat grid over the visible
    /// range `[start, end)`, section by section: each timing point owns the
    /// grid from its offset to the next point's offset (or the end of the
    /// audio), and each tick is classified by its metric position.
    #[verifier::loop_isolation(false)]
    pub fn get_beat_ticks(&self, snap_divisor: i64, duration: i64, start: i64, end: i64) -> (r:
        Vec<(i64, SnapDivision)>)
        requires
            self.wf(),
            1 <= snap_divisor <= 16,
            0 <= duration <= MAX_TIME_US,
            0 <= start <= MAX_TIME_US,
            0 <= end <= MAX_TIME_US,
        ensures
            r@ == spec_beat_ticks(self@, snap_divisor as int, duration as int, start as int, end as int),
    {
        let mut ticks: Vec<(i64, SnapDivision)> = Vec::new();
        let n = self.points.len();
        let mut i: usize = 0;
        while i < n
            invariant
                i <= n,
                ticks@ == spec_beat_ticks_upto(
                    self@,
                    snap_divisor as int,
                    duration as int,
                    start as int,
                    end as int,
                    i as nat,
                ),
            decreases n - i,
        {
            let tp = self.points[i];
            let ghost send_g = spec_section_end(self@, i as int, duration as int);
            proof {
                assert(self@[i as int].wf());
                assert(1 <= tp.bpm * snap_divisor <= 16_000_000_000) by (nonlinear_arith)
                    requires
                        1 <= tp.bpm <= MAX_BPM_MILLI,
                        1 <= snap_divisor <= 16,
                ;
            }
            let divisor_product = tp.bpm * snap_divisor;
            proof {
                lemma_div_in_range(
                    US_MILLI_PER_MINUTE as int,
                    divisor_product as int,
                    3,
                    16_000_000_000,
                );
            }
            let upt = US_MILLI_PER_MINUTE / divisor_product;
            let send: i64 = if i + 1 < n {
                self.points[i + 1].offset
            } else {
                duration
            };
            let lo = if start > tp.offset {
                start
            } else {
                tp.offset
            };
            let hi = if end < send {
                end
            } else {
                send
            };
            if lo < hi {
                let k0 = (lo - tp.offset) / upt;
                let ghost kmax = (hi - tp.offset) / upt as int;
                proof {
                    lemma_div_pos_is_pos(lo - tp.offset, upt as int);
                    lemma_div_is_ordered(lo - tp.offset, hi - tp.offset, upt as int);
                    lemma_mul_div_le(lo - tp.offset, upt as int);
                    lemma_mul_div_le(hi - tp.offset, upt as int);
                    assert(0 <= k0 * upt <= lo - tp.offset) by (nonlinear_arith)
                        requires
                            0 <= k0,
                            0 < upt,
                            k0 * upt == (lo - tp.offset) / upt as int * upt,
                            (lo - tp.offset) / upt as int * upt <= lo - tp.offset,
                    ;
                }
                let mut k = k0;
                let mut t = tp.offset + k * upt;
                while t <= hi
                    invariant
                        k0 <= k <= kmax + 1,
                        t == tp.offset + k * upt,
                        tp.offset <= t <= hi + upt,
                        ticks@ == spec_beat_ticks_upto(
                            self@,
                            snap_divisor as int,
                            duration as int,
                            start as int,
                            end as int,
                            i as nat,
                        ) + spec_section_ticks_upto(
                            tp,
                            send_g,
                            snap_divisor as int,
                            start as int,
                            (k - k0) as nat,
                        ),
                    decreases hi + upt - t,
                {
                    proof {
                        lemma_mul_div_le(hi - tp.offset, upt as int);
                        assert(k <= kmax) by (nonlinear_arith)
                            requires
                                0 < upt,
                                t == tp.offset + k * upt,
                                t <= hi,
                                kmax == (hi - tp.offset) / upt as int,
                                kmax * upt <= hi - tp.offset,
                                (hi - tp.offset) - upt < kmax * upt,
                        ;
                    }
                    if t >= lo && t < send {
                        let in_beat = k % snap_divisor;
                        let beat_num = k / snap_divisor;
                        let in_measure = beat_num % (tp.signature.0 as i64);
                        let snap = SnapDivision::from_tick(in_beat, snap_divisor, in_measure);
                        ticks.push((t, snap));
                    }
                    proof {
                        let nn = (k - k0 + 1) as nat;
                        assert(spec_section_ticks_upto(
                            tp,
                            send_g,
                            snap_divisor as int,
                            start as int,
                            nn,
                        ) == spec_section_ticks_upto(
                            tp,
                            send_g,
                            snap_divisor as int,
                            start as int,
                            (nn - 1) as nat,
                        ) + if t >= lo && t < send_g {
                            seq![
                                (
                                    t,
                                    spec_tick_class(tp, snap_divisor as int, k as int),
                                ),
                            ]
                        } else {
                            Seq::empty()
                        }) by {
                            assert(spec_first_tick_index(tp, snap_divisor as int, start as int)
                                == k0);
                            let up = spec_section_ticks_upto(
                                tp,
                                send_g,
                                snap_divisor as int,
                                start as int,
                                (nn - 1) as nat,
                            );
                            if t >= lo && t < send_g {
                                assert(up.push(
                                    (t, spec_tick_class(tp, snap_divisor as int, k as int)),
                                ) =~= up + seq![
                                    (t, spec_tick_class(tp, snap_divisor as int, k as int)),
                                ]);
                            } else {
                                assert(up + Seq::<(i64, SnapDivision)>::empty() =~= up);
                            }
                        }
                    }
                    k = k + 1;
                    proof {
                        assert(k * upt == (k - 1) * upt + upt) by (nonlinear_arith);
                        assert(tp.offset + k * upt <= hi + upt && k * upt >= 0) by (nonlinear_arith)
                            requires
                                0 < upt,
                                k0 <= k,
                                0 <= k0,
                                kmax * upt <= hi - tp.offset,
                                k <= kmax + 1,
                                kmax >= 0,
                        ;
                    }
                    t = tp.offset + k * upt;
                }
                proof {
                    assert(k == kmax + 1) by (nonlinear_arith)
                        requires
                            0 < upt,
                            t == tp.offset + k * upt,
                            t > hi,
                            k <= kmax + 1,
                            kmax * upt <= hi - tp.offset,
                    ;
                    assert(spec_section_tick_count(
                        tp,
                        send_g,
                        snap_divisor as int,
                        start as int,
                        end as int,
                    ) == (kmax - k0 + 1) as nat);
                }
            } else {
                proof {
                    assert(spec_section_ticks(
                        self@,
                        i as int,
                        snap_divisor as int,
                        duration as int,
                        start as int,
                        end as int,
                    ) =~= Seq::<(i64, SnapDivision)>::empty());
                }
            }
            proof {
                assert(ticks@ =~= spec_beat_ticks_upto(
                    self@,
                    snap_divisor as int,
                    duration as int,
                    start as int,
                    end as int,
                    (i + 1) as nat,
                ));
            }
            i = i + 1;
        }
        ticks
    }
}

/// What removing an identity token leaves: the points in their old order,
/// without every point whose `id` matches.
pub open spec fn spec_remove_id(s: Seq<TimingPoint>, id: u128) -> Seq<TimingPoint>
    decreases s.len(),
{
    if s.len() == 0 {
        Seq::empty()
    } else {
        let rest = spec_remove_id(s.drop_last(), id);
        if s.last().id == id {
            rest
        } else {
            rest.push(s.last())
        }
    }
}

/// Removing points never grows the collection.
pub proof fn lemma_remove_id_shrinks(s: Seq<TimingPoint>, id: u128)
    ensures
        spec_remove_id(s, id).len() <= s.len(),
    decreases s.len(),
{
    if s.len() > 0 {
        lemma_remove_id_shrinks(s.drop_last(), id);
    }
}

/// Removing a token keeps the order, the well-formedness of the points, and
/// hands back only points of the original collection.
pub proof fn lemma_remove_id_props(s: Seq<TimingPoint>, id: u128)
    requires
        sorted_by_offset(s),
        forall|i: int| 0 <= i < s.len() ==> #[trigger] s[i].wf(),
    ensures
        sorted_by_offset(spec_remove_id(s, id)),
        forall|i: int| 0 <= i < spec_remove_id(s, id).len() ==> #[trigger] spec_remove_id(s, id)[i].wf(),
        forall|i: int|
            0 <= i < spec_remove_id(s, id).len() ==> exists|m: int|
                0 <= m < s.len() && #[trigger] spec_remove_id(s, id)[i] == s[m],
    decreases s.len(),
{
    let f = spec_remove_id(s, id);
    if s.len() == 0 {
    } else {
        let prefix = s.drop_last();
        lemma_remove_id_props(prefix, id);
        let fp = spec_remove_id(prefix, id);
        assert forall|i: int|
            0 <= i < f.len() implies exists|m: int| 0 <= m < s.len() && #[trigger] f[i] == s[m] by {
            if i < fp.len() {
                let m = choose|m: int| 0 <= m < prefix.len() && #[trigger] fp[i] == prefix[m];
                assert(f[i] == s[m]);
            } else {
                assert(f[i] == s[s.len() - 1]);
            }
        }
        assert forall|i: int, j: int| 0 <= i <= j < f.len() implies #[trigger] f[i].offset
            <= #[trigger] f[j].offset by {
            if j < fp.len() {
                assert(fp[i].offset <= fp[j].offset);
            } else if i < j {
                let m = choose|m: int| 0 <= m < prefix.len() && #[trigger] fp[i] == prefix[m];
                assert(f[j] == s[s.len() - 1]);
                assert(s[m].offset <= s[s.len() - 1].offset);
            }
        }
        assert forall|i: int| 0 <= i < f.len() implies #[trigger] f[i].wf() by {
            if i < fp.len() {
                assert(fp[i].wf());
            } else {
                assert(f[i] == s[s.len() - 1]);
            }
        }
    }
}

/// Every tick one section contributes lies at or after the clipped start of
/// the section and strictly before the section's end.
pub proof fn lemma_section_ticks_in_section(
    tp: TimingPoint,
    send: int,
    divisor: int,
    start: int,
    n: nat,
)
    requires
        0 <= tp.offset,
        0 <= start,
        send <= i64::MAX,
    ensures
        forall|j: int|
            0 <= j < spec_section_ticks_upto(tp, send, divisor, start, n).len() ==> (if start
                > tp.offset {
                start as int
            } else {
                tp.offset as int
            }) <= (#[trigger] spec_section_ticks_upto(tp, send, divisor, start, n)[j]).0 < send,
    decreases n,
{
    if n > 0 {
        lemma_section_ticks_in_section(tp, send, divisor, start, (n - 1) as nat);
        let f = spec_section_ticks_upto(tp, send, divisor, start, n);
        let prev = spec_section_ticks_upto(tp, send, divisor, start, (n - 1) as nat);
        let lo = if start > tp.offset {
            start as int
        } else {
            tp.offset as int
        };
        assert forall|j: int| 0 <= j < f.len() implies lo <= (#[trigger] f[j]).0 < send by {
            if j < prev.len() {
                assert(lo <= prev[j].0 < send);
            } else {
                let k = spec_first_tick_index(tp, divisor, start) + n - 1;
                let t = spec_tick_time(tp, divisor, k);
                assert(t >= lo && t < send);
                assert(f[j] == (t as i64, spec_tick_class(tp, divisor, k)));
            }
        }
    }
}

/// Law: adjacent sections never overlap and leave no gap at their boundary.
/// Every tick of a section lies strictly before the next timing point's
/// offset, and every tick of the next section lies at or after it: a tick on
/// the boundary itself belongs to the later section alone.
pub proof fn lemma_adjacent_sections_split_at_boundary(
    tps: Seq<TimingPoint>,
    divisor: int,
    duration: int,
    start: int,
    end: int,
    i: int,
)
    requires
        0 <= i,
        i + 1 < tps.len(),
        0 <= start,
        0 <= duration <= MAX_TIME_US,
        forall|m: int| 0 <= m < tps.len() ==> (#[trigger] tps[m]).wf(),
    ensures
        forall|a: int, b: int|
            0 <= a < spec_section_ticks(tps, i, divisor, duration, start, end).len() && 0 <= b
                < spec_section_ticks(tps, i + 1, divisor, duration, start, end).len() ==> {
                &&& (#[trigger] spec_section_ticks(tps, i, divisor, duration, start, end)[a]).0
                    < tps[i + 1].offset
                &&& tps[i + 1].offset <= (#[trigger] spec_section_ticks(
                    tps,
                    i + 1,
                    divisor,
                    duration,
                    start,
                    end,
                )[b]).0
            },
{
    let send_i = spec_section_end(tps, i, duration);
    let send_next = spec_section_end(tps, i + 1, duration);
    assert(tps[i].wf() && tps[i + 1].wf());
    if i + 2 < tps.len() {
        assert(tps[i + 2].wf());
    }
    lemma_section_ticks_in_section(
        tps[i],
        send_i,
        divisor,
        start,
        spec_section_tick_count(tps[i], send_i, divisor, start, end),
    );
    lemma_section_ticks_in_section(
        tps[i + 1],
        send_next,
        divisor,
        start,
        spec_section_tick_count(tps[i + 1], send_next, divisor, start, end),
    );
}

/// Inserting at a position that respects the order keeps the order.
proof fn lemma_insert_sorted(s: Seq<TimingPoint>, tp: TimingPoint, k: int)
    requires
        sorted_by_offset(s),
        0 <= k <= s.len(),
        forall|j: int| 0 <= j < k ==> #[trigger] s[j].offset <= tp.offset,
        forall|j: int| k <= j < s.len() ==> tp.offset < #[trigger] s[j].offset,
    ensures
        sorted_by_offset(s.insert(k, tp)),
{
    let t = s.insert(k, tp);
    assert forall|i: int, j: int| 0 <= i <= j < t.len() implies #[trigger] t[i].offset
        <= #[trigger] t[j].offset by {
        if i < k {
            assert(t[i] == s[i]);
        }
        if j < k {
            assert(t[j] == s[j]);
        }
        if i > k {
            assert(t[i] == s[i - 1]);
        }
        if j > k {
            assert(t[j] == s[j - 1]);
        }
    }
}

/// Inserting anywhere adds exactly one copy to the multiset of points.
proof fn lemma_insert_multiset(s: Seq<TimingPoint>, tp: TimingPoint, k: int)
    requires
        0 <= k <= s.len(),
    ensures
        s.insert(k, tp).to_multiset() == s.to_multiset().insert(tp),
{
    let t = s.insert(k, tp);
    assert(t =~= s.subrange(0, k).push(tp) + s.subrange(k, s.len() as int));
    vstd::seq_lib::lemma_multiset_commutative(
        s.subrange(0, k).push(tp),
        s.subrange(k, s.len() as int),
    );
    s.subrange(0, k).to_multiset_ensures();
    s.subrange(0, k).push(tp).to_multiset_ensures();
    assert(s =~= s.subrange(0, k) + s.subrange(k, s.len() as int));
    vstd::seq_lib::lemma_multiset_commutative(s.subrange(0, k), s.subrange(k, s.len() as int));
    assert(s.subrange(0, k).push(tp).to_multiset() == s.subrange(0, k).to_multiset().insert(tp));
    assert(t.to_multiset() =~= s.to_multiset().insert(tp));
}

} // verus!
