//! Viewport model for the horizontally scrollable, zoomable timeline.
//!
//! Time is measured in microseconds, horizontal pixel positions in
//! milli-pixels, and the zoom level in milli-pixels per second, so that the
//! mapping between time and screen position is exact integer arithmetic.

use vstd::arithmetic::div_mod::{
    lemma_div_is_ordered, lemma_div_pos_is_pos, lemma_fundamental_div_mod,
    lemma_fundamental_div_mod_converse,
};
use vstd::prelude::*;

use crate::arith::{clamp_i64, div_floor, lemma_div_bounded, spec_clamp};
use crate::MAX_TIME_US;

verus! {

/// Lowest zoom level: 10 pixels per second, in milli-pixels per second.
pub const MIN_PPS_MILLI: i64 = 10_000;

/// Highest zoom level: 2000 pixels per second, in milli-pixels per second.
pub const MAX_PPS_MILLI: i64 = 2_000_000;

/// Zoom level right after a reset: 100 pixels per second.
pub const DEFAULT_PPS_MILLI: i64 = 100_000;

/// Widest viewport the model accepts, in milli-pixels (100 000 pixels).
pub const MAX_WIDTH_MPX: i64 = 100_000_000;

/// Largest screen coordinate magnitude the model accepts, in milli-pixels.
pub const MAX_X_MPX: i64 = 10_000_000_000;

/// The scrollable, zoomable 1-D view of the track: `offset` is the time at
/// the left edge of the viewport in microseconds, `pixels_per_second` the
/// zoom level in milli-pixels per second.
pub struct Timeline {
    pub offset: i64,
    pub pixels_per_second: i64,
}

impl Timeline {
    /// The viewport is well formed: the left edge lies within the supported
    /// time range and the zoom level within its fixed bounds.
    pub open spec fn wf(&self) -> bool {
        &&& 0 <= self.offset <= MAX_TIME_US
        &&& MIN_PPS_MILLI <= self.pixels_per_second <= MAX_PPS_MILLI
    }

    /// Duration visible through a viewport `width` milli-pixels wide, in
    /// microseconds.
    pub open spec fn spec_visible_us(&self, width: int) -> int {
        width * 1_000_000 / self.pixels_per_second as int
    }

    /// Greatest left-edge time that still keeps the viewport inside the
    /// track: `max(0, duration - visible)`.
    pub open spec fn spec_max_scroll(&self, duration: int, width: int) -> int {
        if duration - self.spec_visible_us(width) > 0 {
            duration - self.spec_visible_us(width)
        } else {
            0
        }
    }

    pub fn new() -> (r: Timeline)
        ensures
            r.offset == 0,
            r.pixels_per_second == DEFAULT_PPS_MILLI,
            r.wf(),
    {
        Timeline { offset: 0, pixels_per_second: DEFAULT_PPS_MILLI }
    }

    pub fn reset(&mut self)
        ensures
            final(self).offset == 0,
            final(self).pixels_per_second == DEFAULT_PPS_MILLI,
            final(self).wf(),
    {
        self.offset = 0;
        self.pixels_per_second = DEFAULT_PPS_MILLI;
    }

    /// The visible time range `(start, end)` in microseconds.
    pub fn visible_range(&self, width: i64) -> (r: (i64, i64))
        requires
            self.wf(),
            0 <= width <= MAX_WIDTH_MPX,
        ensures
            r.0 == self.offset,
            r.1 == self.offset + self.spec_visible_us(width as int),
    {
        proof {
            lemma_div_pos_is_pos(width * 1_000_000, self.pixels_per_second as int);
            lemma_div_is_ordered(
                width * 1_000_000,
                MAX_WIDTH_MPX * 1_000_000,
                self.pixels_per_second as int,
            );
            vstd::arithmetic::div_mod::lemma_div_by_multiple(10_000_000_000, MIN_PPS_MILLI as int);
            assert(MAX_WIDTH_MPX * 1_000_000 == 10_000_000_000 * MIN_PPS_MILLI);
            lemma_visible_le(self.pixels_per_second as int, width as int);
        }
        let visible = (width * 1_000_000) / self.pixels_per_second;
        (self.offset, self.offset + visible)
    }

    pub fn max_scroll(&self, duration: i64, width: i64) -> (r: i64)
        requires
            self.wf(),
            0 <= duration <= MAX_TIME_US,
            0 <= width <= MAX_WIDTH_MPX,
        ensures
            r == self.spec_max_scroll(duration as int, width as int),
    {
        proof {
            lemma_div_pos_is_pos(width * 1_000_000, self.pixels_per_second as int);
        }
        let visible = (width * 1_000_000) / self.pixels_per_second;
        if duration - visible > 0 {
            duration - visible
        } else {
            0
        }
    }

    /// Screen position, in milli-pixels, of the instant `t` (microseconds).
    pub open spec fn spec_us_to_x(&self, t: int, rect_left: int) -> int {
        rect_left + (t - self.offset) * self.pixels_per_second / 1_000_000
    }

    /// Instant, in microseconds, under the screen position `x` (milli-pixels).
    pub open spec fn spec_x_to_us(&self, x: int, rect_left: int) -> int {
        self.offset + (x - rect_left) * 1_000_000 / self.pixels_per_second as int
    }

    /// Maps an instant `t` in microseconds to its horizontal screen position
    /// in milli-pixels, measured from a viewport whose left edge sits at
    /// `rect_left`.
    pub fn us_to_x(&self, t: i64, rect_left: i64) -> (r: i64)
        requires
            self.wf(),
            -MAX_TIME_US <= t <= MAX_TIME_US,
            -MAX_X_MPX <= rect_left <= MAX_X_MPX,
        ensures
            r == self.spec_us_to_x(t as int, rect_left as int),
    {
        proof {
            assert(-4_000_000_000_000_000_000 <= (t - self.offset) * self.pixels_per_second
                <= 4_000_000_000_000_000_000) by (nonlinear_arith)
                requires
                    -2 * MAX_TIME_US <= t - self.offset <= 2 * MAX_TIME_US,
                    0 < self.pixels_per_second <= MAX_PPS_MILLI,
            ;
        }
        let num = (t - self.offset) * self.pixels_per_second;
        let q = div_floor(num, 1_000_000);
        proof {
            lemma_div_bounded(num as int, 1_000_000, 5_000_000_000_000);
        }
        rect_left + q
    }

    /// Maps a horizontal screen position in milli-pixels back to the instant
    /// under it, in microseconds.
    pub fn x_to_us(&self, x: i64, rect_left: i64) -> (r: i64)
        requires
            self.wf(),
            -MAX_X_MPX <= x <= MAX_X_MPX,
            -MAX_X_MPX <= rect_left <= MAX_X_MPX,
        ensures
            r == self.spec_x_to_us(x as int, rect_left as int),
    {
        let num = (x - rect_left) * 1_000_000;
        let q = div_floor(num, self.pixels_per_second);
        proof {
            assert(-2_000_000_000_000 * self.pixels_per_second <= num as int <= 2_000_000_000_000
                * self.pixels_per_second) by (nonlinear_arith)
                requires
                    num == (x - rect_left) * 1_000_000,
                    -2 * MAX_X_MPX <= x - rect_left <= 2 * MAX_X_MPX,
                    MIN_PPS_MILLI <= self.pixels_per_second,
            ;
            lemma_div_bounded(num as int, self.pixels_per_second as int, 2_000_000_000_000);
        }
        self.offset + q
    }

    /// Sets the zoom level to `new_pps` milli-pixels per second (clamped to
    /// the fixed bounds) while keeping the instant `focus` at the same screen
    /// position, as far as the scroll clamp allows.
    pub fn zoom(&mut self, new_pps: i64, focus: i64, duration: i64, width: i64)
        requires
            old(self).wf(),
            -MAX_TIME_US <= focus <= MAX_TIME_US,
            0 <= duration <= MAX_TIME_US,
            0 <= width <= MAX_WIDTH_MPX,
        ensures
            final(self).pixels_per_second == spec_clamp(
                new_pps as int,
                MIN_PPS_MILLI as int,
                MAX_PPS_MILLI as int,
            ),
            final(self).offset == spec_clamp(
                focus - (focus - old(self).offset) * old(self).pixels_per_second
                    / (final(self).pixels_per_second as int),
                0,
                final(self).spec_max_scroll(duration as int, width as int),
            ),
            final(self).wf(),
    {
        let p = clamp_i64(new_pps, MIN_PPS_MILLI, MAX_PPS_MILLI);
        proof {
            assert(-4_000_000_000_000_000_000 <= (focus - self.offset) * self.pixels_per_second
                <= 4_000_000_000_000_000_000) by (nonlinear_arith)
                requires
                    -2 * MAX_TIME_US <= focus - self.offset <= 2 * MAX_TIME_US,
                    0 < self.pixels_per_second <= MAX_PPS_MILLI,
            ;
        }
        let num = (focus - self.offset) * self.pixels_per_second;
        let q = div_floor(num, p);
        proof {
            assert(-500_000_000_000_000 * p <= num as int <= 500_000_000_000_000 * p)
                by (nonlinear_arith)
                requires
                    -4_000_000_000_000_000_000 <= num <= 4_000_000_000_000_000_000,
                    MIN_PPS_MILLI <= p,
            ;
            lemma_div_bounded(num as int, p as int, 500_000_000_000_000);
        }
        self.pixels_per_second = p;
        let ms = self.max_scroll(duration, width);
        self.offset = clamp_i64(focus - q, 0, ms);
    }

    /// Value of the left edge after a scroll by `delta` microseconds.
    pub open spec fn spec_scroll_us(&self, delta: int, duration: int, width: int) -> int {
        spec_clamp(self.offset + delta, 0, self.spec_max_scroll(duration, width))
    }

    /// Scrolls by a time delta in microseconds; the left edge is clamped to
    /// `[0, max_scroll]`.
    pub fn scroll_us(&mut self, delta: i64, duration: i64, width: i64)
        requires
            old(self).wf(),
            -4 * MAX_TIME_US <= delta <= 4 * MAX_TIME_US,
            0 <= duration <= MAX_TIME_US,
            0 <= width <= MAX_WIDTH_MPX,
        ensures
            final(self).pixels_per_second == old(self).pixels_per_second,
            final(self).offset == old(self).spec_scroll_us(
                delta as int,
                duration as int,
                width as int,
            ),
            final(self).wf(),
    {
        let ms = self.max_scroll(duration, width);
        self.offset = clamp_i64(self.offset + delta, 0, ms);
    }

    /// Scrolls by a pixel delta, given in milli-pixels; the delta is first
    /// converted to microseconds under the current zoom level.
    pub fn scroll(&mut self, delta: i64, duration: i64, width: i64)
        requires
            old(self).wf(),
            -MAX_X_MPX <= delta <= MAX_X_MPX,
            0 <= duration <= MAX_TIME_US,
            0 <= width <= MAX_WIDTH_MPX,
        ensures
            final(self).pixels_per_second == old(self).pixels_per_second,
            final(self).offset == old(self).spec_scroll_us(
                delta * 1_000_000 / old(self).pixels_per_second as int,
                duration as int,
                width as int,
            ),
            final(self).wf(),
    {
        let delta_us = div_floor(delta * 1_000_000, self.pixels_per_second);
        proof {
            assert(-(MAX_TIME_US as int) * self.pixels_per_second <= delta * 1_000_000 <= MAX_TIME_US
                as int * self.pixels_per_second) by (nonlinear_arith)
                requires
                    -MAX_X_MPX <= delta <= MAX_X_MPX,
                    MIN_PPS_MILLI <= self.pixels_per_second,
            ;
            lemma_div_bounded(
                delta * 1_000_000,
                self.pixels_per_second as int,
                MAX_TIME_US as int,
            );
        }
        self.scroll_us(delta_us, duration, width);
    }

    /// Centers the viewport on `target` microseconds, clamped to the track.
    pub fn scroll_to(&mut self, target: i64, duration: i64, width: i64)
        requires
            old(self).wf(),
            -MAX_TIME_US <= target <= MAX_TIME_US,
            0 <= duration <= MAX_TIME_US,
            0 <= width <= MAX_WIDTH_MPX,
        ensures
            final(self).pixels_per_second == old(self).pixels_per_second,
            final(self).offset == spec_clamp(
                target - old(self).spec_visible_us(width as int) / 2,
                0,
                old(self).spec_max_scroll(duration as int, width as int),
            ),
            final(self).wf(),
    {
        proof {
            lemma_div_pos_is_pos(width * 1_000_000, self.pixels_per_second as int);
            vstd::arithmetic::div_mod::lemma_div_by_multiple(
                10_000_000_000,
                MIN_PPS_MILLI as int,
            );
            assert(MAX_WIDTH_MPX * 1_000_000 == 10_000_000_000 * MIN_PPS_MILLI);
            lemma_visible_le(self.pixels_per_second as int, width as int);
        }
        let visible = (width * 1_000_000) / self.pixels_per_second;
        let half = visible / 2;
        let ms = self.max_scroll(duration, width);
        self.offset = clamp_i64(target - half, 0, ms);
        proof {
            lemma_div_pos_is_pos(self.spec_visible_us(width as int), 2);
        }
    }
}

/// Whether a spacing keeps the label count under twice the target of one
/// label per hundred pixels: `visible / interval < 2 * width / 100_000`,
/// cleared of divisions.
pub open spec fn spec_ruler_fits(visible: int, width: int, interval: int) -> bool {
    visible * 50_000 < width * interval
}

/// The spacing the ruler picks: the smallest of the table that keeps the
/// label count under target, or the full minute when none does.
pub open spec fn spec_ruler_interval(visible: int, width: int) -> int {
    if spec_ruler_fits(visible, width, 100_000) {
        100_000
    } else if spec_ruler_fits(visible, width, 200_000) {
        200_000
    } else if spec_ruler_fits(visible, width, 500_000) {
        500_000
    } else if spec_ruler_fits(visible, width, 1_000_000) {
        1_000_000
    } else if spec_ruler_fits(visible, width, 2_000_000) {
        2_000_000
    } else if spec_ruler_fits(visible, width, 5_000_000) {
        5_000_000
    } else if spec_ruler_fits(visible, width, 10_000_000) {
        10_000_000
    } else if spec_ruler_fits(visible, width, 15_000_000) {
        15_000_000
    } else if spec_ruler_fits(visible, width, 30_000_000) {
        30_000_000
    } else {
        60_000_000
    }
}

/// Picks the time between two ruler labels for a viewport showing `visible`
/// microseconds over `width` milli-pixels.
pub fn ruler_interval(visible: i64, width: i64) -> (r: i64)
    requires
        0 <= visible <= 4 * MAX_TIME_US,
        0 <= width <= MAX_X_MPX,
    ensures
        r == spec_ruler_interval(visible as int, width as int),
{
    proof {
        assert(visible * 50_000 <= 4 * MAX_TIME_US * 50_000 && width * 60_000_000 <= MAX_X_MPX
            * 60_000_000 && 0 <= visible * 50_000 && 0 <= width * 60_000_000 && forall|i: int|
            100_000 <= i <= 60_000_000 ==> #[trigger] (width * i) <= width * 60_000_000)
            by (nonlinear_arith)
            requires
                0 <= visible <= 4 * MAX_TIME_US,
                0 <= width <= MAX_X_MPX,
        ;
    }
    let lhs = visible * 50_000;
    if lhs < width * 100_000 {
        100_000
    } else if lhs < width * 200_000 {
        200_000
    } else if lhs < width * 500_000 {
        500_000
    } else if lhs < width * 1_000_000 {
        1_000_000
    } else if lhs < width * 2_000_000 {
        2_000_000
    } else if lhs < width * 5_000_000 {
        5_000_000
    } else if lhs < width * 10_000_000 {
        10_000_000
    } else if lhs < width * 15_000_000 {
        15_000_000
    } else if lhs < width * 30_000_000 {
        30_000_000
    } else {
        60_000_000
    }
}

/// Law: mapping an instant to a screen position and back loses at most the
/// time that one milli-pixel spans — the round trip never moves an instant
/// right, and moves it left by at most `1_000_000 / pixels_per_second + 1`
/// microseconds (a tenth of a millisecond at the lowest zoom).
pub proof fn lemma_roundtrip_coordinate_mapping(tl: Timeline, t: int, rect_left: int)
    requires
        tl.wf(),
    ensures
        0 <= t - tl.spec_x_to_us(tl.spec_us_to_x(t, rect_left), rect_left) <= 1_000_000int
            / tl.pixels_per_second as int + 1,
{
    let o = tl.offset as int;
    let p = tl.pixels_per_second as int;
    let a = (t - o) * p;
    let g = a / 1_000_000;
    let h = a % 1_000_000;
    lemma_fundamental_div_mod(a, 1_000_000);
    // The screen position is `rect_left + g`; going back divides `g * 1_000_000`
    // by `p`, and `g * 1_000_000 == a - h`.
    assert(g * 1_000_000 == a - h);
    let e = h / p;
    let f = h % p;
    lemma_fundamental_div_mod(h, p);
    lemma_div_pos_is_pos(h, p);
    vstd::arithmetic::div_mod::lemma_mod_division_less_than_divisor(h, p);
    if f == 0 {
        assert(a - h == (t - o - e) * p + 0) by (nonlinear_arith)
            requires
                a == (t - o) * p,
                h == p * e + f,
                f == 0,
        ;
        lemma_fundamental_div_mod_converse(a - h, p, t - o - e, 0);
    } else {
        assert(a - h == (t - o - e - 1) * p + (p - f)) by (nonlinear_arith)
            requires
                a == (t - o) * p,
                h == p * e + f,
        ;
        lemma_fundamental_div_mod_converse(a - h, p, t - o - e - 1, p - f);
    }
    // `e <= (1_000_000 - 1) / p <= 1_000_000 / p`.
    lemma_div_is_ordered(h, 1_000_000 - 1, p);
    lemma_div_is_ordered(1_000_000 - 1, 1_000_000, p);
}

/// Law: after any scroll operation — by pixels, by time, or by centering —
/// the left edge lies in `[0, max(0, duration - visible)]`, whatever value
/// was asked for.
pub proof fn lemma_scroll_stays_clamped(tl: Timeline, delta: int, duration: int, width: int)
    requires
        tl.wf(),
    ensures
        0 <= tl.spec_scroll_us(delta, duration, width),
        tl.spec_scroll_us(delta, duration, width) <= tl.spec_max_scroll(duration, width),
        0 <= spec_clamp(delta, 0, tl.spec_max_scroll(duration, width)),
        spec_clamp(delta, 0, tl.spec_max_scroll(duration, width)) <= tl.spec_max_scroll(
            duration,
            width,
        ),
{
}

/// Law: the zoom level that any `zoom` call leaves behind lies within the
/// fixed bounds, whatever level was asked for.
pub proof fn lemma_zoom_level_bounded(requested_pps: int)
    ensures
        MIN_PPS_MILLI <= spec_clamp(requested_pps, MIN_PPS_MILLI as int, MAX_PPS_MILLI as int)
            <= MAX_PPS_MILLI,
{
}

/// Law: a zoom step whose recomputed left edge was not clamped keeps the
/// focused instant within two milli-pixels (two thousandths of a pixel) of
/// its previous screen position, and never moves it right.
///
/// `before` and `after` are the viewport around one `zoom` call whose
/// clamp did not bite: `after.offset` is exactly the recomputed left edge.
pub proof fn lemma_zoom_keeps_focus(before: Timeline, after: Timeline, focus: int, rect_left: int)
    requires
        before.wf(),
        after.wf(),
        after.offset == focus - (focus - before.offset) * before.pixels_per_second
            / (after.pixels_per_second as int),
    ensures
        0 <= before.spec_us_to_x(focus, rect_left) - after.spec_us_to_x(focus, rect_left) <= 2,
{
    let o1 = before.offset as int;
    let p1 = before.pixels_per_second as int;
    let p2 = after.pixels_per_second as int;
    let a = (focus - o1) * p1;
    let q = a / p2;
    let r = a % p2;
    lemma_fundamental_div_mod(a, p2);
    lemma_div_pos_is_pos(r, p2);
    vstd::arithmetic::div_mod::lemma_mod_division_less_than_divisor(a, p2);
    assert(focus - after.offset == q);
    // Position before: `rect_left + a / 1_000_000`; after: `rect_left +
    // (q * p2) / 1_000_000`, and `q * p2 == a - r` with `0 <= r < p2`.
    assert(q * p2 == a - r) by (nonlinear_arith)
        requires
            a == p2 * q + r,
    ;
    let g = a / 1_000_000;
    let h = a % 1_000_000;
    lemma_fundamental_div_mod(a, 1_000_000);
    let e = r / 1_000_000;
    let f = r % 1_000_000;
    lemma_fundamental_div_mod(r, 1_000_000);
    lemma_div_pos_is_pos(r, 1_000_000);
    lemma_div_is_ordered(r, p2 - 1, 1_000_000);
    lemma_div_is_ordered(p2 - 1, 2_000_000 - 1, 1_000_000);
    assert((2_000_000 - 1) / 1_000_000 == 1) by {
        lemma_fundamental_div_mod_converse(2_000_000 - 1, 1_000_000, 1, 1_000_000 - 1);
    }
    vstd::arithmetic::div_mod::lemma_mod_division_less_than_divisor(a, 1_000_000);
    vstd::arithmetic::div_mod::lemma_mod_division_less_than_divisor(r, 1_000_000);
    if h - f >= 0 {
        assert(a - r == (g - e) * 1_000_000 + (h - f)) by (nonlinear_arith)
            requires
                a == 1_000_000 * g + h,
                r == 1_000_000 * e + f,
        ;
        lemma_fundamental_div_mod_converse(a - r, 1_000_000, g - e, h - f);
    } else {
        assert(a - r == (g - e - 1) * 1_000_000 + (1_000_000 + h - f)) by (nonlinear_arith)
            requires
                a == 1_000_000 * g + h,
                r == 1_000_000 * e + f,
        ;
        lemma_fundamental_div_mod_converse(a - r, 1_000_000, g - e - 1, 1_000_000 + h - f);
    }
}

/// The visible duration never exceeds the fixed-point scale of the widest
/// viewport at the lowest zoom.
proof fn lemma_visible_le(pps: int, width: int)
    requires
        MIN_PPS_MILLI <= pps,
        0 <= width <= MAX_WIDTH_MPX,
    ensures
        0 <= width * 1_000_000 / pps <= MAX_WIDTH_MPX as int * 1_000_000 / MIN_PPS_MILLI as int,
{
    lemma_div_pos_is_pos(width * 1_000_000, pps);
    lemma_div_is_ordered(width * 1_000_000, MAX_WIDTH_MPX as int * 1_000_000, pps);
    vstd::arithmetic::div_mod::lemma_div_is_ordered_by_denominator(
        MAX_WIDTH_MPX as int * 1_000_000,
        MIN_PPS_MILLI as int,
        pps,
    );
}

} // verus!
