//! The metronome's beat-crossing rule: given the playhead position of the
//! previous poll and of this one, decide whether a click is due and of which
//! kind. The polling loop, the clock and the click playback are the audio
//! thread's plumbing; the decision is pure and lives here.

use vstd::prelude::*;

use crate::arith::div_floor;
use crate::timing::{TimingPoint, TimingPoints, US_MILLI_PER_MINUTE};
use crate::MAX_TIME_US;

verus! {

/// Which click sound a beat crossing asks for.
#[derive(Clone, Copy, PartialEq, Eq, Structural, Debug)]
pub enum ClickType {
    Downbeat,
    Beat,
}

/// The section the metronome reads at instant `t`: the last timing point at
/// or before `t`, or the first point when `t` lies before all of them.
pub open spec fn spec_metronome_section(tps: Seq<TimingPoint>, t: int) -> int
    decreases tps.len(),
{
    if tps.len() <= 1 {
        0
    } else if tps.last().offset <= t {
        tps.len() - 1
    } else {
        spec_metronome_section(tps.drop_last(), t)
    }
}

/// The click due when the playhead moved from `prev` to `cur`: one click per
/// beat boundary crossed, a downbeat click when the beat starts a measure.
pub open spec fn spec_metronome_click(tps: Seq<TimingPoint>, prev: int, cur: int) -> Option<
    ClickType,
> {
    if tps.len() == 0 {
        Option::None
    } else {
        let tp = tps[spec_metronome_section(tps, cur)];
        let upb = US_MILLI_PER_MINUTE as int / tp.bpm as int;
        let cur_beat = (cur - tp.offset) / upb;
        let prev_beat = (prev - tp.offset) / upb;
        if cur_beat > prev_beat && cur >= tp.offset {
            if cur_beat % (tp.signature.0 as int) == 0 {
                Option::Some(ClickType::Downbeat)
            } else {
                Option::Some(ClickType::Beat)
            }
        } else {
            Option::None
        }
    }
}

/// Decides whether the move of the playhead from `prev` to `cur`
/// microseconds crossed a beat of its tempo section, and which click it
/// deserves.
#[verifier::loop_isolation(false)]
pub fn check_metronome(prev: i64, cur: i64, tps: &TimingPoints) -> (r: Option<ClickType>)
    requires
        tps.wf(),
        -MAX_TIME_US <= prev <= MAX_TIME_US,
        -MAX_TIME_US <= cur <= MAX_TIME_US,
    ensures
        r == spec_metronome_click(tps@, prev as int, cur as int),
{
    let n = tps.len();
    if n == 0 {
        return Option::None;
    }
    let mut i: usize = n;
    proof {
        assert(tps@.subrange(0, n as int) =~= tps@);
    }
    while i > 1 && !(tps.get(i - 1).offset <= cur)
        invariant
            1 <= i <= n,
            spec_metronome_section(tps@, cur as int) == spec_metronome_section(
                tps@.subrange(0, i as int),
                cur as int,
            ),
        decreases i,
    {
        proof {
            let s = tps@.subrange(0, i as int);
            assert(s.drop_last() =~= tps@.subrange(0, i - 1 as int));
        }
        i = i - 1;
    }
    let idx = i - 1;
    proof {
        assert(tps@.subrange(0, n as int) =~= tps@);
        let s = tps@.subrange(0, i as int);
        if i > 1 {
            assert(s.last() == tps@[i - 1 as int]);
        }
        assert(spec_metronome_section(tps@, cur as int) == idx as int);
        assert(tps@[idx as int].wf());
    }
    let tp = tps.get(idx);
    let upb = tp.us_per_beat();
    let cur_beat = div_floor(cur - tp.offset, upb);
    let prev_beat = div_floor(prev - tp.offset, upb);
    if cur_beat > prev_beat && cur >= tp.offset {
        proof {
            vstd::arithmetic::div_mod::lemma_div_pos_is_pos(
                cur as int - tp.offset,
                upb as int,
            );
        }
        let in_measure = cur_beat % (tp.signature.0 as i64);
        if in_measure == 0 {
            Option::Some(ClickType::Downbeat)
        } else {
            Option::Some(ClickType::Beat)
        }
    } else {
        Option::None
    }
}

} // verus!
