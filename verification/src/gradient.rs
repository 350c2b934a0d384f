//! The gradient: an ordered list of color stops with cyclic repetition
//! and linear interpolation, mapping any hue to a defined color.
//!
//! Hues and stop positions are fixed-point values scaled by
//! [`crate::FP_ONE`].  A hue is first clamped to `[0, FP_ONE]`, then
//! mapped to its cyclic position within one repetition of the stop
//! pattern (a period smaller than one full unit repeats the pattern);
//! the exact top of the range always maps to the top of the pattern.
//! The color comes from linear interpolation between the two stops that
//! bracket the position, with the initial color below the first stop and
//! the end color above the last.

use vstd::prelude::*;

use crate::FP_ONE;
use crate::color::Rgb;

verus! {

/// Why a gradient could not be built.
#[derive(Clone, Copy, Debug, PartialEq, Eq, Structural)]
pub enum GradientError {
    /// The period is zero or negative.
    NonPositivePeriod,
    /// The stop list is empty.
    NoStops,
    /// A stop position lies outside `[0, FP_ONE]`.
    StopOutOfRange,
    /// The stop positions are not strictly increasing.
    UnsortedStops,
}

/// A color anchor: a fixed-point position in `[0, FP_ONE]` and the color
/// the gradient takes there exactly.
#[derive(Clone, Copy, Debug, PartialEq, Eq, Structural)]
pub struct Stop {
    pub position: i64,
    pub color: Rgb,
}

impl Stop {
    /// Builds a stop from a position and a color.
    pub fn new(position: i64, color: Rgb) -> (s: Stop)
        ensures
            s == (Stop { position, color }),
    {
        Stop { position, color }
    }
}

/// An ordered list of color stops with an initial color, an end color,
/// and a repetition period.
pub struct Gradient {
    period: i64,
    initial: Rgb,
    stops: Vec<Stop>,
    end: Rgb,
}

/// Stop positions are strictly increasing.
pub open spec fn stops_sorted(stops: Seq<Stop>) -> bool {
    forall|i: int|
        0 <= i < stops.len() - 1 ==> (#[trigger] stops[i]).position < stops[i + 1].position
}

/// Every stop position lies in `[0, FP_ONE]`.
pub open spec fn stops_in_range(stops: Seq<Stop>) -> bool {
    forall|i: int| 0 <= i < stops.len() ==> 0 <= (#[trigger] stops[i]).position <= FP_ONE
}

/// A hue clamped to `[0, FP_ONE]`.
pub open spec fn clamp_hue(hue: int) -> int {
    if hue < 0 {
        0
    } else if hue > FP_ONE {
        FP_ONE as int
    } else {
        hue
    }
}

/// The cyclic position of a hue within one repetition of the stop
/// pattern: `(hue / period) mod 1`, except that the exact top of the hue
/// range maps to the top of the pattern.
pub open spec fn cyclic_pos(period: int, hue: int) -> int
    recommends
        period >= 1,
{
    let h = clamp_hue(hue);
    if h == FP_ONE {
        FP_ONE as int
    } else {
        ((h * (FP_ONE as int)) / period) % (FP_ONE as int)
    }
}

/// One channel interpolated between `c1` and `c2`, at `num` of `den`
/// parts of the way, rounding toward `c1`.
pub open spec fn chan_lerp(c1: int, c2: int, num: int, den: int) -> int {
    if c2 >= c1 {
        c1 + ((c2 - c1) * num) / den
    } else {
        c1 - ((c1 - c2) * num) / den
    }
}

/// The color interpolated between `a` and `b`, channel by channel.
pub open spec fn color_lerp(a: Rgb, b: Rgb, num: int, den: int) -> Rgb {
    Rgb {
        r: chan_lerp(a.r as int, b.r as int, num, den) as u8,
        g: chan_lerp(a.g as int, b.g as int, num, den) as u8,
        b: chan_lerp(a.b as int, b.b as int, num, den) as u8,
    }
}

/// The color a stop list takes at cyclic position `p`, having already
/// passed a previous anchor at `prev_pos` with color `prev_color`: an
/// exact hit on a stop returns that stop's color, a position between two
/// anchors interpolates, and a position above every stop interpolates
/// toward `end_color` at `FP_ONE`.
pub open spec fn color_in_stops(
    stops: Seq<Stop>,
    prev_pos: int,
    prev_color: Rgb,
    end_color: Rgb,
    p: int,
) -> Rgb
    decreases stops.len(),
{
    if stops.len() == 0 {
        color_lerp(prev_color, end_color, p - prev_pos, (FP_ONE as int) - prev_pos)
    } else if p == stops.first().position {
        stops.first().color
    } else if p < stops.first().position {
        color_lerp(prev_color, stops.first().color, p - prev_pos, stops.first().position - prev_pos)
    } else {
        color_in_stops(
            stops.drop_first(),
            stops.first().position as int,
            stops.first().color,
            end_color,
            p,
        )
    }
}

impl Gradient {
    /// The repetition period, in fixed-point units.
    pub closed spec fn period_spec(&self) -> int {
        self.period as int
    }

    /// The color at the bottom of the pattern.
    pub closed spec fn initial_spec(&self) -> Rgb {
        self.initial
    }

    /// The color at the top of the pattern.
    pub closed spec fn end_spec(&self) -> Rgb {
        self.end
    }

    /// The ordered stops.
    pub closed spec fn stops_spec(&self) -> Seq<Stop> {
        self.stops@
    }

    /// A well-formed gradient: positive period and at least one stop,
    /// with positions strictly increasing within `[0, FP_ONE]`.
    pub open spec fn wf(&self) -> bool {
        &&& self.period_spec() >= 1
        &&& self.stops_spec().len() >= 1
        &&& stops_in_range(self.stops_spec())
        &&& stops_sorted(self.stops_spec())
    }

    /// The color the gradient takes at a hue.
    pub open spec fn color_at(&self, hue: int) -> Rgb {
        color_in_stops(
            self.stops_spec(),
            0,
            self.initial_spec(),
            self.end_spec(),
            cyclic_pos(self.period_spec(), hue),
        )
    }

    /// Builds a gradient, validating the configuration eagerly: the
    /// period must be positive and the stops non-empty, in range and
    /// strictly increasing.
    #[verifier::loop_isolation(false)]
    pub fn new(period: i64, initial: Rgb, stops: Vec<Stop>, end: Rgb) -> (r: Result<
        Gradient,
        GradientError,
    >)
        ensures
            r is Ok <==> (period >= 1 && stops@.len() >= 1 && stops_in_range(stops@)
                && stops_sorted(stops@)),
            match r {
                Ok(g) => g.wf() && g.period_spec() == period && g.initial_spec() == initial
                    && g.end_spec() == end && g.stops_spec() == stops@,
                Err(e) => {
                    &&& (e == GradientError::NonPositivePeriod <==> period < 1)
                    &&& (e == GradientError::NoStops <==> (period >= 1 && stops@.len() == 0))
                    &&& (e == GradientError::StopOutOfRange <==> (period >= 1 && stops@.len() >= 1
                        && !stops_in_range(stops@)))
                    &&& (e == GradientError::UnsortedStops <==> (period >= 1 && stops@.len() >= 1
                        && stops_in_range(stops@) && !stops_sorted(stops@)))
                },
            },
    {
        if period < 1 {
            return Err(GradientError::NonPositivePeriod);
        }
        if stops.len() == 0 {
            return Err(GradientError::NoStops);
        }
        let mut i: usize = 0;
        while i < stops.len()
            invariant
                i <= stops@.len(),
                forall|j: int| 0 <= j < i ==> 0 <= (#[trigger] stops@[j]).position <= FP_ONE,
            decreases stops@.len() - i,
        {
            if stops[i].position < 0 || stops[i].position > FP_ONE {
                return Err(GradientError::StopOutOfRange);
            }
            i = i + 1;
        }
        let mut k: usize = 1;
        while k < stops.len()
            invariant
                1 <= k,
                k <= stops@.len() || stops@.len() == 0,
                forall|j: int|
                    0 <= j < k - 1 ==> (#[trigger] stops@[j]).position < stops@[j + 1].position,
            decreases stops@.len() - k,
        {
            if stops[k].position <= stops[k - 1].position {
                return Err(GradientError::UnsortedStops);
            }
            k = k + 1;
        }
        Ok(Gradient { period, initial, stops, end })
    }

    /// Looks the hue's color up: clamps the hue, maps it to its cyclic
    /// position, and interpolates between the bracketing anchors.
    #[verifier::loop_isolation(false)]
    pub fn get_color(&self, hue: i64) -> (c: Rgb)
        requires
            self.wf(),
        ensures
            c == self.color_at(hue as int),
    {
        let h: i64 = if hue < 0 {
            0
        } else if hue > FP_ONE {
            FP_ONE
        } else {
            hue
        };
        let p: i64 = if h == FP_ONE {
            FP_ONE
        } else {
            ((h * FP_ONE) / self.period) % FP_ONE
        };
        proof {
            assert(0 <= p <= FP_ONE);
            assert(p == cyclic_pos(self.period_spec(), hue as int));
            assert(self.stops@.skip(0) =~= self.stops@);
        }
        let mut prev_pos: i64 = 0;
        let mut prev_color: Rgb = self.initial;
        let mut i: usize = 0;
        while i < self.stops.len()
            invariant
                i <= self.stops@.len(),
                0 <= prev_pos <= p,
                i == 0 ==> prev_pos == 0 && prev_color == self.initial,
                i >= 1 ==> prev_pos == self.stops@[i - 1].position && prev_color == self.stops@[i
                    - 1].color && prev_pos < p,
                color_in_stops(
                    self.stops@.skip(i as int),
                    prev_pos as int,
                    prev_color,
                    self.end,
                    p as int,
                ) == self.color_at(hue as int),
            decreases self.stops@.len() - i,
        {
            let s: Stop = self.stops[i];
            proof {
                assert(self.stops@.skip(i as int).first() == self.stops@[i as int]);
                assert(self.stops@.skip(i as int).drop_first() =~= self.stops@.skip(i as int + 1));
            }
            if p == s.position {
                return s.color;
            }
            if p < s.position {
                return lerp_color(prev_color, s.color, p - prev_pos, s.position - prev_pos);
            }
            prev_pos = s.position;
            prev_color = s.color;
            i = i + 1;
        }
        lerp_color(prev_color, self.end, p - prev_pos, FP_ONE - prev_pos)
    }
}

/// One interpolated channel, executable.
fn lerp_chan(c1: u8, c2: u8, num: i64, den: i64) -> (c: u8)
    requires
        0 <= num <= den,
        1 <= den <= FP_ONE,
    ensures
        c as int == chan_lerp(c1 as int, c2 as int, num as int, den as int),
{
    if c2 >= c1 {
        let d: i64 = (c2 - c1) as i64;
        proof {
            assert(0 <= d as int * num as int <= 255 * 0x100_0000) by (nonlinear_arith)
                requires
                    0 <= d as int <= 255,
                    0 <= num as int <= 0x100_0000,
            ;
            lemma_chan_lerp_bounds(c1 as int, c2 as int, num as int, den as int);
        }
        let add: i64 = (d * num) / den;
        c1 + (add as u8)
    } else {
        let d: i64 = (c1 - c2) as i64;
        proof {
            assert(0 <= d as int * num as int <= 255 * 0x100_0000) by (nonlinear_arith)
                requires
                    0 <= d as int <= 255,
                    0 <= num as int <= 0x100_0000,
            ;
            lemma_chan_lerp_bounds(c1 as int, c2 as int, num as int, den as int);
        }
        let sub: i64 = (d * num) / den;
        c1 - (sub as u8)
    }
}

/// The interpolated color, executable.
fn lerp_color(a: Rgb, b: Rgb, num: i64, den: i64) -> (c: Rgb)
    requires
        0 <= num <= den,
        1 <= den <= FP_ONE,
    ensures
        c == color_lerp(a, b, num as int, den as int),
{
    Rgb {
        r: lerp_chan(a.r, b.r, num, den),
        g: lerp_chan(a.g, b.g, num, den),
        b: lerp_chan(a.b, b.b, num, den),
    }
}

/// Interpolation never leaves the closed interval between its two
/// endpoint channel values.
pub proof fn lemma_chan_lerp_bounds(c1: int, c2: int, num: int, den: int)
    requires
        0 <= num <= den,
        1 <= den,
    ensures
        c1 <= c2 ==> c1 <= chan_lerp(c1, c2, num, den) <= c2,
        c2 <= c1 ==> c2 <= chan_lerp(c1, c2, num, den) <= c1,
{
    if c1 <= c2 {
        let d = c2 - c1;
        assert(0 <= (d * num) / den <= d) by (nonlinear_arith)
            requires
                0 <= num <= den,
                1 <= den,
                0 <= d,
        ;
    }
    if c2 <= c1 {
        let d = c1 - c2;
        assert(0 <= (d * num) / den <= d) by (nonlinear_arith)
            requires
                0 <= num <= den,
                1 <= den,
                0 <= d,
        ;
    }
}

/// Within one interpolation segment every color channel varies
/// monotonically with the position: between two hues that the same pair
/// of anchors brackets, a channel only moves toward the second anchor's
/// value.
pub proof fn lemma_chan_lerp_monotonic(c1: int, c2: int, n1: int, n2: int, den: int)
    requires
        0 <= n1 <= n2 <= den,
        1 <= den,
    ensures
        c1 <= c2 ==> chan_lerp(c1, c2, n1, den) <= chan_lerp(c1, c2, n2, den),
        c2 <= c1 ==> chan_lerp(c1, c2, n1, den) >= chan_lerp(c1, c2, n2, den),
{
    if c1 <= c2 {
        let d = c2 - c1;
        assert((d * n1) / den <= (d * n2) / den) by (nonlinear_arith)
            requires
                0 <= n1 <= n2,
                1 <= den,
                0 <= d,
        ;
    }
    if c2 <= c1 {
        let d = c1 - c2;
        assert((d * n1) / den <= (d * n2) / den) by (nonlinear_arith)
            requires
                0 <= n1 <= n2,
                1 <= den,
                0 <= d,
        ;
    }
}

/// Interpolating all the way (at `den` of `den` parts) lands exactly on
/// the second color; interpolating not at all (at 0) keeps the first.
pub proof fn lemma_color_lerp_ends(a: Rgb, b: Rgb, den: int)
    requires
        1 <= den,
    ensures
        color_lerp(a, b, 0, den) == a,
        color_lerp(a, b, den, den) == b,
{
    lemma_chan_lerp_ends(a.r as int, b.r as int, den);
    lemma_chan_lerp_ends(a.g as int, b.g as int, den);
    lemma_chan_lerp_ends(a.b as int, b.b as int, den);
}

proof fn lemma_chan_lerp_ends(c1: int, c2: int, den: int)
    requires
        1 <= den,
    ensures
        chan_lerp(c1, c2, 0, den) == c1,
        chan_lerp(c1, c2, den, den) == c2,
{
    assert(forall|d: int| #[trigger] (d * 0) == 0) by (nonlinear_arith);
    assert(0int / den == 0) by (nonlinear_arith)
        requires
            1 <= den,
    ;
    if c2 >= c1 {
        assert(((c2 - c1) * den) / den == c2 - c1) by (nonlinear_arith)
            requires
                1 <= den,
        ;
    } else {
        assert(((c1 - c2) * den) / den == c1 - c2) by (nonlinear_arith)
            requires
                1 <= den,
        ;
    }
}

/// At hue 0 the gradient yields its initial color — or the first stop's
/// color when that stop sits exactly at position 0.
pub proof fn lemma_color_at_zero(g: &Gradient)
    requires
        g.wf(),
    ensures
        g.color_at(0) == (if g.stops_spec()[0].position == 0 {
            g.stops_spec()[0].color
        } else {
            g.initial_spec()
        }),
{
    assert((0int * (FP_ONE as int)) / g.period_spec() == 0) by (nonlinear_arith)
        requires
            g.period_spec() >= 1,
    ;
    assert(0int % (FP_ONE as int) == 0) by (nonlinear_arith);
    assert(cyclic_pos(g.period_spec(), 0) == 0);
    let s0 = g.stops_spec().first();
    if s0.position != 0 {
        assert(0 < s0.position);
        lemma_color_lerp_ends(g.initial_spec(), s0.color, s0.position - 0);
    }
}

/// At hue `FP_ONE` (1.0) the gradient yields its end color — or the last
/// stop's color when that stop sits exactly at position `FP_ONE`.
pub proof fn lemma_color_at_one(g: &Gradient)
    requires
        g.wf(),
    ensures
        g.color_at(FP_ONE as int) == (if g.stops_spec().last().position == FP_ONE {
            g.stops_spec().last().color
        } else {
            g.end_spec()
        }),
{
    assert(cyclic_pos(g.period_spec(), FP_ONE as int) == FP_ONE);
    lemma_color_in_stops_at_top(g.stops_spec(), 0, g.initial_spec(), g.end_spec());
}

proof fn lemma_color_in_stops_at_top(
    stops: Seq<Stop>,
    prev_pos: int,
    prev_color: Rgb,
    end_color: Rgb,
)
    requires
        stops_sorted(stops),
        stops_in_range(stops),
        0 <= prev_pos < FP_ONE,
    ensures
        color_in_stops(stops, prev_pos, prev_color, end_color, FP_ONE as int) == (if stops.len()
            > 0 && stops.last().position == FP_ONE {
            stops.last().color
        } else {
            end_color
        }),
    decreases stops.len(),
{
    if stops.len() == 0 {
        lemma_color_lerp_ends(prev_color, end_color, (FP_ONE as int) - prev_pos);
    } else if stops.first().position == FP_ONE {
        if stops.len() > 1 {
            assert(stops[0].position < stops[1].position);
            assert(stops[1].position <= FP_ONE);
            assert(false);
        }
        assert(stops.last() == stops.first());
    } else {
        assert(stops.first().position < FP_ONE);
        let rest = stops.drop_first();
        assert forall|i: int| 0 <= i < rest.len() - 1 implies (#[trigger] rest[i]).position < rest[
            i + 1
        ].position by {
            assert(rest[i] == stops[i + 1]);
            assert(rest[i + 1] == stops[i + 2]);
        }
        assert forall|i: int| 0 <= i < rest.len() implies 0 <= (#[trigger] rest[i]).position
            <= FP_ONE by {
            assert(rest[i] == stops[i + 1]);
        }
        lemma_color_in_stops_at_top(rest, stops.first().position as int, stops.first().color, end_color);
        if rest.len() > 0 {
            assert(stops.last() == rest.last());
        }
    }
}

/// Out-of-range hues clamp: below zero the color is the color at 0,
/// above `FP_ONE` it is the color at `FP_ONE`.
pub proof fn lemma_color_clamps(g: &Gradient, hue: int)
    requires
        g.wf(),
    ensures
        hue < 0 ==> g.color_at(hue) == g.color_at(0),
        hue > FP_ONE ==> g.color_at(hue) == g.color_at(FP_ONE as int),
{
    assert(hue < 0 ==> clamp_hue(hue) == clamp_hue(0));
    assert(hue > FP_ONE ==> clamp_hue(hue) == clamp_hue(FP_ONE as int));
}

/// The lower bound of bracketing segment `i` of a stop list that starts
/// at anchor `prev_pos`: segment 0 runs from that anchor to the first
/// stop, segment `i` from stop `i - 1` to stop `i`, and the last
/// segment from the last stop to `FP_ONE`.
pub open spec fn seg_lo(stops: Seq<Stop>, prev_pos: int, i: int) -> int {
    if i == 0 {
        prev_pos
    } else {
        stops[i - 1].position as int
    }
}

/// The upper bound of bracketing segment `i`.
pub open spec fn seg_hi(stops: Seq<Stop>, i: int) -> int {
    if i == stops.len() {
        FP_ONE as int
    } else {
        stops[i].position as int
    }
}

/// The color at the lower bound of bracketing segment `i`.
pub open spec fn seg_c1(stops: Seq<Stop>, prev_color: Rgb, i: int) -> Rgb {
    if i == 0 {
        prev_color
    } else {
        stops[i - 1].color
    }
}

/// The color at the upper bound of bracketing segment `i`.
pub open spec fn seg_c2(stops: Seq<Stop>, end_color: Rgb, i: int) -> Rgb {
    if i == stops.len() {
        end_color
    } else {
        stops[i].color
    }
}

proof fn lemma_sorted_strict(stops: Seq<Stop>, j: int, k: int)
    requires
        stops_sorted(stops),
        0 <= j < k < stops.len(),
    ensures
        stops[j].position < stops[k].position,
    decreases k - j,
{
    if j + 1 < k {
        lemma_sorted_strict(stops, j, k - 1);
    }
}

#[verifier::rlimit(60)]
proof fn lemma_color_in_stops_segment(
    stops: Seq<Stop>,
    prev_pos: int,
    prev_color: Rgb,
    end_color: Rgb,
    i: int,
    p: int,
)
    requires
        stops_sorted(stops),
        stops_in_range(stops),
        0 <= prev_pos <= FP_ONE,
        stops.len() > 0 ==> prev_pos <= stops[0].position,
        0 <= i <= stops.len(),
        seg_lo(stops, prev_pos, i) <= p <= seg_hi(stops, i),
        seg_lo(stops, prev_pos, i) < seg_hi(stops, i),
    ensures
        color_in_stops(stops, prev_pos, prev_color, end_color, p) == color_lerp(
            seg_c1(stops, prev_color, i),
            seg_c2(stops, end_color, i),
            p - seg_lo(stops, prev_pos, i),
            seg_hi(stops, i) - seg_lo(stops, prev_pos, i),
        ),
    decreases stops.len(),
{
    let lo = seg_lo(stops, prev_pos, i);
    let hi = seg_hi(stops, i);
    if stops.len() == 0 {
        assert(color_in_stops(stops, prev_pos, prev_color, end_color, p) == color_lerp(
            prev_color,
            end_color,
            p - prev_pos,
            (FP_ONE as int) - prev_pos,
        ));
    } else if i == 0 {
        if p == stops.first().position {
            assert(p == hi);
            lemma_color_lerp_ends(prev_color, stops.first().color, hi - lo);
        } else {
            assert(p < stops.first().position);
        }
    } else if i == 1 && p == stops.first().position {
        assert(p == lo);
        lemma_color_lerp_ends(stops.first().color, seg_c2(stops, end_color, 1), hi - lo);
    } else {
        assert(p >= lo);
        if i >= 2 {
            lemma_sorted_strict(stops, 0, i - 1);
        }
        assert(p > stops.first().position);
        let rest = stops.drop_first();
        assert forall|j: int| 0 <= j < rest.len() - 1 implies (#[trigger] rest[j]).position < rest[
            j + 1
        ].position by {
            assert(rest[j] == stops[j + 1]);
            assert(rest[j + 1] == stops[j + 2]);
        }
        assert forall|j: int| 0 <= j < rest.len() implies 0 <= (#[trigger] rest[j]).position
            <= FP_ONE by {
            assert(rest[j] == stops[j + 1]);
        }
        assert(rest.len() > 0 ==> rest[0] == stops[1]);
        lemma_color_in_stops_segment(
            rest,
            stops.first().position as int,
            stops.first().color,
            end_color,
            i - 1,
            p,
        );
        if i - 1 >= 1 {
            assert(rest[i - 2] == stops[i - 1]);
        }
        if i - 1 < rest.len() {
            assert(rest[i - 1] == stops[i]);
        }
    }
}

/// Where a cyclic position falls between two anchors, the gradient's
/// color is exactly the linear interpolation between those anchors.
pub proof fn lemma_color_is_segment_lerp(g: &Gradient, i: int, p: int)
    requires
        g.wf(),
        0 <= i <= g.stops_spec().len(),
        seg_lo(g.stops_spec(), 0, i) <= p <= seg_hi(g.stops_spec(), i),
        seg_lo(g.stops_spec(), 0, i) < seg_hi(g.stops_spec(), i),
        0 <= p <= FP_ONE,
    ensures
        color_in_stops(g.stops_spec(), 0, g.initial_spec(), g.end_spec(), p) == color_lerp(
            seg_c1(g.stops_spec(), g.initial_spec(), i),
            seg_c2(g.stops_spec(), g.end_spec(), i),
            p - seg_lo(g.stops_spec(), 0, i),
            seg_hi(g.stops_spec(), i) - seg_lo(g.stops_spec(), 0, i),
        ),
{
    lemma_color_in_stops_segment(g.stops_spec(), 0, g.initial_spec(), g.end_spec(), i, p);
}

/// Continuity of the gradient within one bracketing segment: between
/// two cyclic positions that the same pair of anchors brackets, every
/// color channel varies monotonically, from the first anchor's value
/// toward the second's.
pub proof fn lemma_color_monotone_in_segment(g: &Gradient, i: int, p1: int, p2: int)
    requires
        g.wf(),
        0 <= i <= g.stops_spec().len(),
        seg_lo(g.stops_spec(), 0, i) <= p1 <= p2 <= seg_hi(g.stops_spec(), i),
        seg_lo(g.stops_spec(), 0, i) < seg_hi(g.stops_spec(), i),
        0 <= p1,
        p2 <= FP_ONE,
    ensures
        ({
            let a = seg_c1(g.stops_spec(), g.initial_spec(), i);
            let b = seg_c2(g.stops_spec(), g.end_spec(), i);
            let q1 = color_in_stops(g.stops_spec(), 0, g.initial_spec(), g.end_spec(), p1);
            let q2 = color_in_stops(g.stops_spec(), 0, g.initial_spec(), g.end_spec(), p2);
            &&& (a.r <= b.r ==> q1.r <= q2.r)
            &&& (a.r >= b.r ==> q1.r >= q2.r)
            &&& (a.g <= b.g ==> q1.g <= q2.g)
            &&& (a.g >= b.g ==> q1.g >= q2.g)
            &&& (a.b <= b.b ==> q1.b <= q2.b)
            &&& (a.b >= b.b ==> q1.b >= q2.b)
        }),
{
    let stops = g.stops_spec();
    let lo = seg_lo(stops, 0, i);
    let hi = seg_hi(stops, i);
    let a = seg_c1(stops, g.initial_spec(), i);
    let b = seg_c2(stops, g.end_spec(), i);
    lemma_color_is_segment_lerp(g, i, p1);
    lemma_color_is_segment_lerp(g, i, p2);
    lemma_chan_lerp_monotonic(a.r as int, b.r as int, p1 - lo, p2 - lo, hi - lo);
    lemma_chan_lerp_monotonic(a.g as int, b.g as int, p1 - lo, p2 - lo, hi - lo);
    lemma_chan_lerp_monotonic(a.b as int, b.b as int, p1 - lo, p2 - lo, hi - lo);
    lemma_chan_lerp_bounds(a.r as int, b.r as int, p1 - lo, hi - lo);
    lemma_chan_lerp_bounds(a.g as int, b.g as int, p1 - lo, hi - lo);
    lemma_chan_lerp_bounds(a.b as int, b.b as int, p1 - lo, hi - lo);
    lemma_chan_lerp_bounds(a.r as int, b.r as int, p2 - lo, hi - lo);
    lemma_chan_lerp_bounds(a.g as int, b.g as int, p2 - lo, hi - lo);
    lemma_chan_lerp_bounds(a.b as int, b.b as int, p2 - lo, hi - lo);
}

} // verus!
