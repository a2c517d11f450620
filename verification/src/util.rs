//! Timestamp rendering: `MM:SS.mmm` as ASCII bytes, with exact digit
//! contracts. The bytes are valid UTF-8 by construction; the display layer
//! wraps them in a string.

use vstd::arithmetic::div_mod::{lemma_div_is_ordered, lemma_div_nonincreasing, lemma_div_pos_is_pos};
use vstd::prelude::*;

use crate::MAX_TIME_US;

verus! {

/// Decimal digits of a non-negative number, most significant first.
pub open spec fn spec_decimal(n: int) -> Seq<u8>
    decreases n,
{
    if n < 10 {
        seq![(48 + n) as u8]
    } else {
        spec_decimal(n / 10).push((48 + n % 10) as u8)
    }
}

/// Decimal digits padded with zeros to at least two places.
pub open spec fn spec_pad2(n: int) -> Seq<u8> {
    if n < 10 {
        seq![48u8] + spec_decimal(n)
    } else {
        spec_decimal(n)
    }
}

/// Decimal digits padded with zeros to at least three places.
pub open spec fn spec_pad3(n: int) -> Seq<u8> {
    (if n < 100 {
        seq![48u8]
    } else {
        Seq::empty()
    }) + (if n < 10 {
        seq![48u8]
    } else {
        Seq::empty()
    }) + spec_decimal(n)
}

/// The clock text for an instant: minutes (at least two digits), seconds and
/// milliseconds, `MM:SS.mmm`. Instants before the start of the track read as
/// its start.
pub open spec fn spec_format_time(us: int) -> Seq<u8> {
    let ms = if us > 0 {
        us / 1000
    } else {
        0
    };
    let total_seconds = ms / 1000;
    let minutes = total_seconds / 60;
    let seconds = total_seconds % 60;
    let millis = ms % 1000;
    spec_pad2(minutes) + seq![58u8] + spec_pad2(seconds) + seq![46u8] + spec_pad3(millis)
}

/// Appends the decimal digits of `n` to `out`, most significant first.
pub fn push_decimal(n: u64, out: &mut Vec<u8>)
    ensures
        final(out)@ == old(out)@ + spec_decimal(n as int),
    decreases n,
{
    if n < 10 {
        out.push(48 + (n as u8));
        proof {
            assert(out@ =~= old(out)@ + spec_decimal(n as int));
        }
    } else {
        proof {
            lemma_div_pos_is_pos(n as int, 10);
            lemma_div_nonincreasing(n as int, 10);
        }
        push_decimal(n / 10, out);
        out.push(48 + ((n % 10) as u8));
        proof {
            assert(out@ =~= old(out)@ + spec_decimal(n as int));
        }
    }
}

/// Renders an instant as `MM:SS.mmm` ASCII text, the clock format of the
/// ruler and the timing-point table.
pub fn format_time(us: i64) -> (r: Vec<u8>)
    requires
        us <= MAX_TIME_US,
    ensures
        r@ == spec_format_time(us as int),
{
    let ms: i64 = if us > 0 {
        proof {
            lemma_div_pos_is_pos(us as int, 1000);
            lemma_div_nonincreasing(us as int, 1000);
        }
        us / 1000
    } else {
        0
    };
    let total_seconds = ms / 1000;
    let minutes = total_seconds / 60;
    let seconds = total_seconds % 60;
    let millis = ms % 1000;
    proof {
        lemma_div_pos_is_pos(ms as int, 1000);
        lemma_div_nonincreasing(ms as int, 1000);
        lemma_div_pos_is_pos(total_seconds as int, 60);
        lemma_div_nonincreasing(total_seconds as int, 60);
    }
    let mut out: Vec<u8> = Vec::new();
    if minutes < 10 {
        out.push(48);
    }
    push_decimal(minutes as u64, &mut out);
    out.push(58);
    if seconds < 10 {
        out.push(48);
    }
    push_decimal(seconds as u64, &mut out);
    out.push(46);
    if millis < 100 {
        out.push(48);
    }
    if millis < 10 {
        out.push(48);
    }
    push_decimal(millis as u64, &mut out);
    proof {
        assert(out@ =~= spec_format_time(us as int));
    }
    out
}

} // verus!
