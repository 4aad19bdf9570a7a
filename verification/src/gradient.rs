//! The colour gradient: a table of `ARRAY_SIZE` colours interpolated between
//! a few control points, and the lookup that turns a colour level into one of
//! its entries.
//!
//! The interpolation is a cubic Hermite curve per segment and per channel.
//! Positions are fixed-point numbers and every intermediate value is an exact
//! fraction, so each entry of the table is the curve's true value rounded
//! down.

use vstd::prelude::*;
use crate::arith::{lemma_negative_quotient, lemma_product_bound, lemma_product_positive};
use crate::config::ConfigError;

verus! {

/// Number of entries of a gradient table.
pub const ARRAY_SIZE: usize = 2048;

/// Number of the last sample of a gradient table: sample `i` stands at
/// `i / LAST_SAMPLE` of the gradient's length.
pub const LAST_SAMPLE: u64 = 2047;

/// Positions along the gradient are counted in units of `1 / POSITION_SCALE`
/// of its length: `0` is its start, `POSITION_SCALE` its end.
pub const POSITION_SCALE: u32 = 10_000;

/// Largest denominator of a position inside a segment: a segment as long as
/// the gradient, cut at every sample.
pub const MAX_PARAMETER: i128 = 20_470_000;

/// Largest magnitude of a slope's numerator: a full swing of one channel.
pub const MAX_RISE: i128 = 2_550_000;

/// An opaque or translucent colour, one byte per channel.
#[derive(Clone, Copy, Debug, PartialEq, Eq, Structural)]
pub struct Rgba {
    pub r: u8,
    pub g: u8,
    pub b: u8,
    pub a: u8,
}

/// A fixed colour that the gradient passes through at `position`, which is
/// counted in units of `1 / POSITION_SCALE` of the gradient's length.
#[derive(Clone, Copy, Debug, PartialEq, Eq)]
pub struct ControlPoint {
    pub position: u32,
    pub color: (u8, u8, u8),
}

/// Three exact fractions over one denominator, one for each of the channels
/// red, green and blue.
#[derive(Clone, Copy, Debug, PartialEq, Eq)]
pub struct ChannelFractions {
    pub num: (i128, i128, i128),
    pub den: i128,
}

/// The number of the entry that a colour level selects: the table is
/// walked cyclically, so the level is taken modulo the table's length.
pub open spec fn entry_index(level: u64) -> int {
    (level as int) % (ARRAY_SIZE as int)
}

/// The entry of a gradient table that a colour level selects.
pub open spec fn table_entry(colors: Seq<Rgba>, level: u64) -> Rgba {
    colors[entry_index(level)]
}

/// Looks up the colour of a point that escaped. `level` is the integer part
/// of the smoothed, scaled iteration depth.
pub fn get_interpolated_color(colors: &Vec<Rgba>, level: u64) -> (color: Rgba)
    requires
        colors.len() == ARRAY_SIZE,
    ensures
        color == table_entry(colors@, level),
{
    let idx: usize = (level % (ARRAY_SIZE as u64)) as usize;
    colors[idx]
}

/// A list of control points that a gradient can be built from: the first
/// one sits at position 0, none lies past the end of the gradient, and
/// positions strictly increase.
pub open spec fn well_formed(points: Seq<ControlPoint>) -> bool {
    &&& points.len() > 0 ==> points[0].position == 0
    &&& forall|i: int|
        0 <= i < points.len() ==> (#[trigger] points[i]).position <= POSITION_SCALE
    &&& forall|i: int, j: int|
        0 <= i < j < points.len() ==> (#[trigger] points[i]).position < (
        #[trigger] points[j]).position
}

/// Whether sample number `sample`, which stands at `sample / LAST_SAMPLE` of
/// the gradient's length, lies strictly past `position`.
pub open spec fn beyond(sample: int, position: u32) -> bool {
    sample * POSITION_SCALE > position * LAST_SAMPLE
}

/// Whether `i` is the segment that holds the sample: the sample lies past
/// every control point up to `i`, the first excepted, and not past the next
/// one. The last control point stands for everything behind it.
pub open spec fn is_segment(points: Seq<ControlPoint>, sample: int, i: int) -> bool {
    &&& 0 <= i < points.len()
    &&& forall|j: int| 0 < j <= i ==> beyond(sample, (#[trigger] points[j]).position)
    &&& i + 1 < points.len() ==> !beyond(sample, points[i + 1].position)
}

/// The segment found by walking forward from control point `i`.
pub open spec fn segment_from(points: Seq<ControlPoint>, sample: int, i: int) -> int
    decreases points.len() - i,
{
    if 0 <= i && i + 1 < points.len() && beyond(sample, points[i + 1].position) {
        segment_from(points, sample, i + 1)
    } else {
        i
    }
}

/// The segment that holds the sample.
pub open spec fn segment_of(points: Seq<ControlPoint>, sample: int) -> int {
    segment_from(points, sample, 0)
}

/// Numerator of the slope of one channel between two control points, in
/// colour units per gradient length, over the distance between the points.
pub open spec fn slope_rise(c0: u8, c1: u8) -> int {
    (c1 - c0) * POSITION_SCALE
}

/// The slope of each channel from control point `a` to control point `b`.
pub open spec fn slope_between(a: ControlPoint, b: ControlPoint) -> ChannelFractions {
    ChannelFractions {
        num: (
            slope_rise(a.color.0, b.color.0) as i128,
            slope_rise(a.color.1, b.color.1) as i128,
            slope_rise(a.color.2, b.color.2) as i128,
        ),
        den: (b.position - a.position) as i128,
    }
}

/// Tangent at the left end of segment `i`: the slope of the segment before
/// it, or its own slope where it is the first.
pub open spec fn left_tangent(points: Seq<ControlPoint>, i: int) -> ChannelFractions {
    if i > 0 {
        slope_between(points[i - 1], points[i])
    } else {
        slope_between(points[i], points[i + 1])
    }
}

/// Tangent at the right end of segment `i`: the slope from its left end to
/// the control point after its right end, or its own slope where it is the
/// last.
pub open spec fn right_tangent(points: Seq<ControlPoint>, i: int) -> ChannelFractions {
    if i + 2 < points.len() {
        slope_between(points[i], points[i + 2])
    } else {
        slope_between(points[i], points[i + 1])
    }
}

/// Numerator of the sample's position inside segment `i`, between 0 and 1.
pub open spec fn parameter_num(points: Seq<ControlPoint>, sample: int, i: int) -> int {
    sample * POSITION_SCALE - points[i].position * LAST_SAMPLE
}

/// Denominator of the sample's position inside segment `i`.
pub open spec fn parameter_den(points: Seq<ControlPoint>, i: int) -> int {
    (points[i + 1].position - points[i].position) * LAST_SAMPLE
}

/// The Hermite basis polynomial `2t^3 - 3t^2 + 1` at `t = tn / td`, scaled
/// by `td^3`: the weight of the left end's value.
pub open spec fn h00(tn: int, td: int) -> int {
    2 * (tn * tn * tn) - 3 * (tn * tn * td) + td * td * td
}

/// The Hermite basis polynomial `t^3 - 2t^2 + t` at `t = tn / td`, scaled by
/// `td^3`: the weight of the left end's tangent.
pub open spec fn h10(tn: int, td: int) -> int {
    tn * tn * tn - 2 * (tn * tn * td) + tn * td * td
}

/// The Hermite basis polynomial `-2t^3 + 3t^2` at `t = tn / td`, scaled by
/// `td^3`: the weight of the right end's value.
pub open spec fn h01(tn: int, td: int) -> int {
    3 * (tn * tn * td) - 2 * (tn * tn * tn)
}

/// The Hermite basis polynomial `t^3 - t^2` at `t = tn / td`, scaled by
/// `td^3`: the weight of the right end's tangent.
pub open spec fn h11(tn: int, td: int) -> int {
    tn * tn * tn - tn * tn * td
}

/// Numerator of the cubic Hermite curve of one channel at `t = tn / td`,
/// from the end values `c0`, `c1` and the end tangents `rise0 / run0`,
/// `rise1 / run1`; the denominator is `hermite_denominator`.
pub open spec fn hermite_numerator(
    tn: int,
    td: int,
    c0: int,
    c1: int,
    rise0: int,
    run0: int,
    rise1: int,
    run1: int,
) -> int {
    (h00(tn, td) * c0 + h01(tn, td) * c1) * run0 * run1 + h10(tn, td) * rise0 * run1 + h11(
        tn,
        td,
    ) * rise1 * run0
}

/// Denominator that goes with `hermite_numerator`.
pub open spec fn hermite_denominator(td: int, run0: int, run1: int) -> int {
    td * td * td * run0 * run1
}

/// The byte that stands for the fraction `num / den`: the fraction rounded
/// down to an integer and held to the range of a byte.
pub open spec fn to_byte(num: int, den: int) -> int {
    let q = num / den;
    if q < 0 {
        0
    } else if q > 255 {
        255
    } else {
        q
    }
}

/// One channel of the curve over a segment, as a byte.
pub open spec fn channel_at(
    tn: int,
    td: int,
    c0: u8,
    c1: u8,
    rise0: i128,
    run0: i128,
    rise1: i128,
    run1: i128,
) -> u8 {
    to_byte(
        hermite_numerator(
            tn,
            td,
            c0 as int,
            c1 as int,
            rise0 as int,
            run0 as int,
            rise1 as int,
            run1 as int,
        ),
        hermite_denominator(td, run0 as int, run1 as int),
    ) as u8
}

/// The colour of the gradient at sample number `sample`.
pub open spec fn interpolated(points: Seq<ControlPoint>, sample: int) -> (u8, u8, u8) {
    let i = segment_of(points, sample);
    if i == points.len() - 1 {
        points[i].color
    } else {
        let tn = parameter_num(points, sample, i);
        let td = parameter_den(points, i);
        let p0 = points[i].color;
        let p1 = points[i + 1].color;
        let m0 = left_tangent(points, i);
        let m1 = right_tangent(points, i);
        (
            channel_at(tn, td, p0.0, p1.0, m0.num.0, m0.den, m1.num.0, m1.den),
            channel_at(tn, td, p0.1, p1.1, m0.num.1, m0.den, m1.num.1, m1.den),
            channel_at(tn, td, p0.2, p1.2, m0.num.2, m0.den, m1.num.2, m1.den),
        )
    }
}

/// The opaque colour with the given red, green and blue.
pub open spec fn solid(color: (u8, u8, u8)) -> Rgba {
    Rgba { r: color.0, g: color.1, b: color.2, a: 255 }
}

/// The gradient table of a list of control points: entry `i` is the opaque
/// colour of the gradient at sample `i`.
pub open spec fn gradient_table(points: Seq<ControlPoint>) -> Seq<Rgba> {
    Seq::new(ARRAY_SIZE as nat, |i: int| solid(interpolated(points, i)))
}

/// The control points of the built-in gradient.
pub open spec fn default_points() -> Seq<ControlPoint> {
    seq![
        ControlPoint { position: 0, color: (0, 7, 100) },
        ControlPoint { position: 1600, color: (32, 107, 203) },
        ControlPoint { position: 4200, color: (237, 255, 255) },
        ControlPoint { position: 6425, color: (255, 170, 0) },
        ControlPoint { position: 8575, color: (0, 2, 0) },
    ]
}

/// Whether a slope is one that two control points can have.
pub open spec fn slope_in_range(m: ChannelFractions) -> bool {
    &&& 0 < m.den <= POSITION_SCALE
    &&& -MAX_RISE <= m.num.0 <= MAX_RISE
    &&& -MAX_RISE <= m.num.1 <= MAX_RISE
    &&& -MAX_RISE <= m.num.2 <= MAX_RISE
}

/// Whether the four values can be a scaled Hermite basis.
spec fn basis_in_range(basis: (i128, i128, i128, i128)) -> bool {
    let limit = 6 * (MAX_PARAMETER * MAX_PARAMETER * MAX_PARAMETER);
    &&& -limit <= basis.0 <= limit
    &&& -limit <= basis.1 <= limit
    &&& -limit <= basis.2 <= limit
    &&& -limit <= basis.3 <= limit
}

/// A multiple of the curve's denominator divided by that denominator gives
/// the factor back.
proof fn lemma_whole_quotient(c: int, td: int, run0: int, run1: int)
    by (nonlinear_arith)
    requires
        td > 0,
        run0 > 0,
        run1 > 0,
    ensures
        td * td * td * run0 * run1 > 0,
        (c * (td * td * td * run0 * run1)) / (td * td * td * run0 * run1) == c,
{
}

/// Walking forward from a control point that the sample has passed ends at
/// the segment that holds the sample.
pub proof fn lemma_segment_from(points: Seq<ControlPoint>, sample: int, i: int)
    requires
        0 <= i < points.len(),
        forall|j: int| 0 < j <= i ==> beyond(sample, (#[trigger] points[j]).position),
    ensures
        is_segment(points, sample, segment_from(points, sample, i)),
    decreases points.len() - i,
{
    if i + 1 < points.len() && beyond(sample, points[i + 1].position) {
        lemma_segment_from(points, sample, i + 1);
    }
}

/// Only one segment holds a sample.
pub proof fn lemma_segment_unique(points: Seq<ControlPoint>, sample: int, a: int, b: int)
    requires
        is_segment(points, sample, a),
        is_segment(points, sample, b),
    ensures
        a == b,
{
    if a < b {
        assert(beyond(sample, points[a + 1].position));
    } else if b < a {
        assert(beyond(sample, points[b + 1].position));
    }
}

/// Tells whether a list of control points is well formed.
pub fn is_well_formed(points: &[ControlPoint]) -> (ok: bool)
    ensures
        ok == well_formed(points@),
{
    if points.len() == 0 {
        return true;
    }
    if points[0].position != 0 {
        return false;
    }
    let mut k: usize = 1;
    while k < points.len()
        invariant
            1 <= k <= points.len(),
            points@[0].position == 0,
            forall|i: int| 0 <= i < k ==> (#[trigger] points@[i]).position <= POSITION_SCALE,
            forall|i: int, j: int|
                0 <= i < j < k ==> (#[trigger] points@[i]).position < (
                #[trigger] points@[j]).position,
        decreases points.len() - k,
    {
        if points[k].position > POSITION_SCALE || points[k - 1].position >= points[k].position {
            proof {
                if points@[k as int].position <= POSITION_SCALE {
                    assert(!(points@[k - 1].position < points@[k as int].position));
                }
            }
            return false;
        }
        proof {
            assert forall|i: int, j: int| 0 <= i < j < k + 1 implies (#[trigger] points@[i]).position
                < (#[trigger] points@[j]).position by {
                if j == k && i < k - 1 {
                    assert(points@[i].position < points@[k - 1].position);
                }
            }
        }
        k += 1;
    }
    true
}

/// Finds the segment that holds the sample by walking the control points
/// from the first one.
pub fn locate_segment(sample: usize, points: &[ControlPoint]) -> (i: usize)
    requires
        points.len() >= 1,
        sample < ARRAY_SIZE,
    ensures
        i == segment_of(points@, sample as int),
        is_segment(points@, sample as int, i as int),
{
    assert(sample * POSITION_SCALE <= LAST_SAMPLE * POSITION_SCALE) by (nonlinear_arith)
        requires
            sample <= LAST_SAMPLE,
    ;
    let x: u64 = (sample as u64) * (POSITION_SCALE as u64);
    let mut i: usize = 0;
    while i < points.len() - 1 && x > (points[i + 1].position as u64) * LAST_SAMPLE
        invariant
            i < points.len(),
            x == sample * POSITION_SCALE,
            segment_of(points@, sample as int) == segment_from(points@, sample as int, i as int),
            forall|j: int| 0 < j <= i ==> beyond(sample as int, (#[trigger] points@[j]).position),
        decreases points.len() - i,
    {
        i += 1;
    }
    proof {
        lemma_segment_from(points@, sample as int, i as int);
    }
    i
}

/// The slope of each channel between two control points, as exact fractions.
pub fn calculate_slope(p0: (u8, u8, u8), p1: (u8, u8, u8), x0: u32, x1: u32) -> (m:
    ChannelFractions)
    requires
        x0 < x1 <= POSITION_SCALE,
    ensures
        m.den == x1 - x0,
        m.num.0 == slope_rise(p0.0, p1.0),
        m.num.1 == slope_rise(p0.1, p1.1),
        m.num.2 == slope_rise(p0.2, p1.2),
        slope_in_range(m),
{
    let scale: i128 = POSITION_SCALE as i128;
    ChannelFractions {
        num: (
            (p1.0 as i128 - p0.0 as i128) * scale,
            (p1.1 as i128 - p0.1 as i128) * scale,
            (p1.2 as i128 - p0.2 as i128) * scale,
        ),
        den: (x1 - x0) as i128,
    }
}

/// The scaled Hermite basis at `t = tn / td`, in the order `h00`, `h10`,
/// `h01`, `h11`.
fn hermite_basis(tn: i128, td: i128) -> (basis: (i128, i128, i128, i128))
    requires
        0 <= tn <= td <= MAX_PARAMETER,
    ensures
        basis.0 == h00(tn as int, td as int),
        basis.1 == h10(tn as int, td as int),
        basis.2 == h01(tn as int, td as int),
        basis.3 == h11(tn as int, td as int),
        basis_in_range(basis),
{
    let ghost limit: int = MAX_PARAMETER as int;
    proof {
        lemma_product_bound(tn as int, tn as int, limit, limit);
        lemma_product_bound(tn as int, td as int, limit, limit);
        lemma_product_bound(td as int, td as int, limit, limit);
    }
    let tn2: i128 = tn * tn;
    let tntd: i128 = tn * td;
    let td2: i128 = td * td;
    proof {
        lemma_product_bound(tn2 as int, tn as int, limit * limit, limit);
        lemma_product_bound(tn2 as int, td as int, limit * limit, limit);
        lemma_product_bound(tntd as int, td as int, limit * limit, limit);
        lemma_product_bound(td2 as int, td as int, limit * limit, limit);
    }
    let tn3: i128 = tn2 * tn;
    let tn2td: i128 = tn2 * td;
    let tntd2: i128 = tntd * td;
    let td3: i128 = td2 * td;
    (2 * tn3 - 3 * tn2td + td3, tn3 - 2 * tn2td + tntd2, 3 * tn2td - 2 * tn3, tn3 - tn2td)
}

/// One channel of `cubic_hermite`, from the scaled basis values.
fn blend_channel(
    basis: (i128, i128, i128, i128),
    c0: u8,
    c1: u8,
    rise0: i128,
    run0: i128,
    rise1: i128,
    run1: i128,
) -> (num: i128)
    requires
        basis_in_range(basis),
        0 < run0 <= POSITION_SCALE,
        0 < run1 <= POSITION_SCALE,
        -MAX_RISE <= rise0 <= MAX_RISE,
        -MAX_RISE <= rise1 <= MAX_RISE,
    ensures
        num == (basis.0 * c0 + basis.2 * c1) * run0 * run1 + basis.1 * rise0 * run1 + basis.3
            * rise1 * run0,
{
    let ghost cube: int = MAX_PARAMETER as int * MAX_PARAMETER as int * MAX_PARAMETER as int;
    let ghost scale: int = POSITION_SCALE as int;
    proof {
        lemma_product_bound(basis.0 as int, c0 as int, 6 * cube, 255);
        lemma_product_bound(basis.2 as int, c1 as int, 6 * cube, 255);
    }
    let ends: i128 = basis.0 * (c0 as i128) + basis.2 * (c1 as i128);
    proof {
        lemma_product_bound(ends as int, run0 as int, 12 * cube * 255, scale);
    }
    let ends_run0: i128 = ends * run0;
    proof {
        lemma_product_bound(ends_run0 as int, run1 as int, 12 * cube * 255 * scale, scale);
        lemma_product_bound(basis.1 as int, rise0 as int, 6 * cube, MAX_RISE as int);
    }
    let ends_part: i128 = ends_run0 * run1;
    let left: i128 = basis.1 * rise0;
    proof {
        lemma_product_bound(left as int, run1 as int, 6 * cube * MAX_RISE as int, scale);
        lemma_product_bound(basis.3 as int, rise1 as int, 6 * cube, MAX_RISE as int);
    }
    let left_part: i128 = left * run1;
    let right: i128 = basis.3 * rise1;
    proof {
        lemma_product_bound(right as int, run0 as int, 6 * cube * MAX_RISE as int, scale);
    }
    let right_part: i128 = right * run0;
    ends_part + left_part + right_part
}

/// The cubic Hermite curve from `p0` to `p1` with end tangents `m0`, `m1`,
/// at the parameter `t = tn / td` between 0 and 1: each channel as an exact
/// fraction.
pub fn cubic_hermite(
    p0: (u8, u8, u8),
    p1: (u8, u8, u8),
    m0: ChannelFractions,
    m1: ChannelFractions,
    tn: i128,
    td: i128,
) -> (v: ChannelFractions)
    requires
        0 <= tn <= td <= MAX_PARAMETER,
        0 < td,
        slope_in_range(m0),
        slope_in_range(m1),
    ensures
        v.den == hermite_denominator(td as int, m0.den as int, m1.den as int),
        v.den > 0,
        v.num.0 == hermite_numerator(
            tn as int,
            td as int,
            p0.0 as int,
            p1.0 as int,
            m0.num.0 as int,
            m0.den as int,
            m1.num.0 as int,
            m1.den as int,
        ),
        v.num.1 == hermite_numerator(
            tn as int,
            td as int,
            p0.1 as int,
            p1.1 as int,
            m0.num.1 as int,
            m0.den as int,
            m1.num.1 as int,
            m1.den as int,
        ),
        v.num.2 == hermite_numerator(
            tn as int,
            td as int,
            p0.2 as int,
            p1.2 as int,
            m0.num.2 as int,
            m0.den as int,
            m1.num.2 as int,
            m1.den as int,
        ),
{
    let basis = hermite_basis(tn, td);
    let ghost limit: int = MAX_PARAMETER as int;
    let ghost scale: int = POSITION_SCALE as int;
    proof {
        lemma_product_bound(td as int, td as int, limit, limit);
        lemma_product_positive(td as int, td as int);
    }
    let td2: i128 = td * td;
    proof {
        lemma_product_bound(td2 as int, td as int, limit * limit, limit);
        lemma_product_positive(td2 as int, td as int);
    }
    let td3: i128 = td2 * td;
    proof {
        lemma_product_bound(td3 as int, m0.den as int, limit * limit * limit, scale);
        lemma_product_positive(td3 as int, m0.den as int);
    }
    let td3_run0: i128 = td3 * m0.den;
    proof {
        lemma_product_bound(td3_run0 as int, m1.den as int, limit * limit * limit * scale, scale);
        lemma_product_positive(td3_run0 as int, m1.den as int);
    }
    ChannelFractions {
        num: (
            blend_channel(basis, p0.0, p1.0, m0.num.0, m0.den, m1.num.0, m1.den),
            blend_channel(basis, p0.1, p1.1, m0.num.1, m0.den, m1.num.1, m1.den),
            blend_channel(basis, p0.2, p1.2, m0.num.2, m0.den, m1.num.2, m1.den),
        ),
        den: td3_run0 * m1.den,
    }
}

/// Turns an exact fraction into a byte: values below 0 become 0, values
/// above 255 become 255, and the fractional part is dropped.
pub fn quantize(num: i128, den: i128) -> (byte: u8)
    requires
        den > 0,
    ensures
        byte == to_byte(num as int, den as int),
{
    if num < 0 {
        proof {
            lemma_negative_quotient(num as int, den as int);
        }
        0
    } else {
        let q: u128 = (num as u128) / (den as u128);
        if q > 255 {
            255
        } else {
            q as u8
        }
    }
}

/// The colour of the gradient at sample number `sample` of `ARRAY_SIZE`
/// evenly spaced samples: the last control point's colour at or behind it,
/// and between two control points the cubic Hermite curve through them.
pub fn monotonic_cubic_interpolate(sample: usize, points: &[ControlPoint]) -> (color: (
    u8,
    u8,
    u8,
))
    requires
        points.len() >= 2,
        well_formed(points@),
        sample < ARRAY_SIZE,
    ensures
        color == interpolated(points@, sample as int),
{
    let i = locate_segment(sample, points);
    if i == points.len() - 1 {
        return points[i].color;
    }
    proof {
        lemma_parameter_in_unit_interval(points@, sample as int, i as int);
    }
    let x0: u32 = points[i].position;
    let x1: u32 = points[i + 1].position;
    let tn: i128 = (sample as i128) * (POSITION_SCALE as i128) - (x0 as i128) * (
    LAST_SAMPLE as i128);
    let td: i128 = ((x1 - x0) as i128) * (LAST_SAMPLE as i128);
    assert(tn == parameter_num(points@, sample as int, i as int));
    assert(td == parameter_den(points@, i as int));

    let p0 = points[i].color;
    let p1 = points[i + 1].color;

    let m0 = if i > 0 {
        calculate_slope(points[i - 1].color, p0, points[i - 1].position, x0)
    } else {
        calculate_slope(p0, p1, x0, x1)
    };

    let m1 = if i < points.len() - 2 {
        calculate_slope(p0, points[i + 2].color, x0, points[i + 2].position)
    } else {
        calculate_slope(p0, p1, x0, x1)
    };

    let v = cubic_hermite(p0, p1, m0, m1, tn, td);
    (quantize(v.num.0, v.den), quantize(v.num.1, v.den), quantize(v.num.2, v.den))
}

/// Samples the gradient of at least two control points.
fn sample_gradient(points: &[ControlPoint]) -> (colors: Vec<Rgba>)
    requires
        points.len() >= 2,
        well_formed(points@),
    ensures
        colors@ == gradient_table(points@),
{
    let mut colors: Vec<Rgba> = Vec::with_capacity(ARRAY_SIZE);
    let mut i: usize = 0;
    while i < ARRAY_SIZE
        invariant
            i <= ARRAY_SIZE,
            points.len() >= 2,
            well_formed(points@),
            colors.len() == i,
            forall|k: int| 0 <= k < i ==> colors@[k] == solid(interpolated(points@, k)),
        decreases ARRAY_SIZE - i,
    {
        let (r, g, b) = monotonic_cubic_interpolate(i, points);
        colors.push(Rgba { r, g, b, a: 255 });
        i += 1;
    }
    assert(colors@ =~= gradient_table(points@));
    colors
}

/// Builds the gradient table of a list of control points: `ARRAY_SIZE`
/// colours that begin with the first control point's colour and end with
/// the last one's. Fewer than two control points make no gradient.
pub fn build_color_array(points: &[ControlPoint]) -> (built: Result<Vec<Rgba>, ConfigError>)
    requires
        points.len() >= 2 ==> well_formed(points@),
    ensures
        points.len() < 2 ==> built == Err::<Vec<Rgba>, ConfigError>(
            ConfigError::TooFewControlPoints,
        ),
        points.len() >= 2 ==> (built matches Ok(colors) && colors@ == gradient_table(points@)
            && colors.len() == ARRAY_SIZE && colors@[0] == solid(points@[0].color)
            && colors@[ARRAY_SIZE - 1] == solid(points@[points.len() - 1].color)),
{
    if points.len() < 2 {
        return Err(ConfigError::TooFewControlPoints);
    }
    proof {
        lemma_table_spans_control_points(points@);
    }
    Ok(sample_gradient(points))
}

/// The control points of the built-in gradient: deep blue, light blue,
/// white, orange and near black.
pub fn default_control_points() -> (points: Vec<ControlPoint>)
    ensures
        points@ == default_points(),
        well_formed(points@),
{
    let mut points: Vec<ControlPoint> = Vec::new();
    points.push(ControlPoint { position: 0, color: (0, 7, 100) });
    points.push(ControlPoint { position: 1600, color: (32, 107, 203) });
    points.push(ControlPoint { position: 4200, color: (237, 255, 255) });
    points.push(ControlPoint { position: 6425, color: (255, 170, 0) });
    points.push(ControlPoint { position: 8575, color: (0, 2, 0) });
    assert(points@ =~= default_points());
    points
}

/// Builds the gradient table of the built-in control points. It begins with
/// deep blue and ends with near black.
pub fn create_color_array() -> (colors: Vec<Rgba>)
    ensures
        colors@ == gradient_table(default_points()),
        colors.len() == ARRAY_SIZE,
        colors@[0] == (Rgba { r: 0, g: 7, b: 100, a: 255 }),
        colors@[ARRAY_SIZE - 1] == (Rgba { r: 0, g: 2, b: 0, a: 255 }),
{
    let points = default_control_points();
    proof {
        lemma_table_spans_control_points(points@);
    }
    sample_gradient(points.as_slice())
}

/// The built-in control points are well formed.
pub proof fn lemma_default_points_well_formed()
    ensures
        default_points().len() == 5,
        well_formed(default_points()),
{
}

/// Neighbouring levels select neighbouring entries: one level up is one
/// entry on, and behind the last entry the table starts again.
pub proof fn lemma_next_level_is_next_entry(level: u64)
    requires
        level < u64::MAX,
    ensures
        entry_index((level + 1) as u64) == (entry_index(level) + 1) % (ARRAY_SIZE as int),
        0 <= entry_index(level) < ARRAY_SIZE,
{
}

/// Inside its segment a sample stands between the segment's ends: its
/// parameter lies between 0 and 1.
pub proof fn lemma_parameter_in_unit_interval(points: Seq<ControlPoint>, sample: int, i: int)
    requires
        well_formed(points),
        0 <= sample,
        is_segment(points, sample, i),
        i + 1 < points.len(),
    ensures
        0 <= parameter_num(points, sample, i) <= parameter_den(points, i),
        0 < parameter_den(points, i),
{
    assert(points[i].position < points[i + 1].position);
    if i > 0 {
        assert(beyond(sample, points[i].position));
    }
}

/// At the left end of a segment the curve has the left end's value,
/// whatever the tangents are.
pub proof fn lemma_curve_at_left_end(
    td: int,
    c0: int,
    c1: int,
    rise0: int,
    run0: int,
    rise1: int,
    run1: int,
)
    requires
        td > 0,
        run0 > 0,
        run1 > 0,
        0 <= c0 <= 255,
    ensures
        to_byte(
            hermite_numerator(0, td, c0, c1, rise0, run0, rise1, run1),
            hermite_denominator(td, run0, run1),
        ) == c0,
{
    let num = hermite_numerator(0, td, c0, c1, rise0, run0, rise1, run1);
    let den = hermite_denominator(td, run0, run1);
    assert(num == c0 * den) by (nonlinear_arith)
        requires
            num == ((2 * (0 * 0 * 0) - 3 * (0 * 0 * td) + td * td * td) * c0 + (3 * (0 * 0 * td)
                - 2 * (0 * 0 * 0)) * c1) * run0 * run1 + (0 * 0 * 0 - 2 * (0 * 0 * td) + 0 * td
                * td) * rise0 * run1 + (0 * 0 * 0 - 0 * 0 * td) * rise1 * run0,
            den == td * td * td * run0 * run1,
    ;
    lemma_whole_quotient(c0, td, run0, run1);
}

/// At the right end of a segment the curve has the right end's value,
/// whatever the tangents are.
pub proof fn lemma_curve_at_right_end(
    td: int,
    c0: int,
    c1: int,
    rise0: int,
    run0: int,
    rise1: int,
    run1: int,
)
    requires
        td > 0,
        run0 > 0,
        run1 > 0,
        0 <= c1 <= 255,
    ensures
        to_byte(
            hermite_numerator(td, td, c0, c1, rise0, run0, rise1, run1),
            hermite_denominator(td, run0, run1),
        ) == c1,
{
    let num = hermite_numerator(td, td, c0, c1, rise0, run0, rise1, run1);
    let den = hermite_denominator(td, run0, run1);
    let cube = td * td * td;
    assert(num == c1 * den) by (nonlinear_arith)
        requires
            num == ((2 * cube - 3 * cube + cube) * c0 + (3 * cube - 2 * cube) * c1) * run0 * run1
                + (cube - 2 * cube + cube) * rise0 * run1 + (cube - cube) * rise1 * run0,
            den == cube * run0 * run1,
    ;
    lemma_whole_quotient(c1, td, run0, run1);
}

/// The gradient passes through its control points exactly: a sample that
/// stands at the position of a control point has that point's colour.
pub proof fn lemma_gradient_passes_through(points: Seq<ControlPoint>, k: int, sample: int)
    requires
        well_formed(points),
        points.len() >= 2,
        0 <= k < points.len(),
        0 <= sample <= LAST_SAMPLE,
        sample * POSITION_SCALE == points[k].position * LAST_SAMPLE,
    ensures
        interpolated(points, sample) == points[k].color,
{
    let i = if k == 0 {
        0
    } else {
        k - 1
    };
    assert(is_segment(points, sample, i)) by {
        assert forall|j: int| 0 < j <= i implies beyond(sample, (#[trigger] points[j]).position) by {
            assert(points[j].position < points[k].position);
        }
        if k == 0 {
            assert(points[0].position < points[1].position);
        }
    }
    lemma_segment_from(points, sample, 0);
    lemma_segment_unique(points, sample, i, segment_of(points, sample));
    let td = parameter_den(points, i);
    let tn = parameter_num(points, sample, i);
    let p0 = points[i].color;
    let p1 = points[i + 1].color;
    let m0 = left_tangent(points, i);
    let m1 = right_tangent(points, i);
    assert(points[i].position < points[i + 1].position);
    assert(m0.den > 0) by {
        if i > 0 {
            assert(points[i - 1].position < points[i].position);
        }
    }
    assert(m1.den > 0) by {
        if i + 2 < points.len() {
            assert(points[i].position < points[i + 2].position);
        }
    }
    if k == 0 {
        assert(tn == 0);
        lemma_curve_at_left_end(td, p0.0 as int, p1.0 as int, m0.num.0 as int, m0.den as int, m1.num.0 as int, m1.den as int);
        lemma_curve_at_left_end(td, p0.1 as int, p1.1 as int, m0.num.1 as int, m0.den as int, m1.num.1 as int, m1.den as int);
        lemma_curve_at_left_end(td, p0.2 as int, p1.2 as int, m0.num.2 as int, m0.den as int, m1.num.2 as int, m1.den as int);
    } else {
        assert(tn == td);
        lemma_curve_at_right_end(td, p0.0 as int, p1.0 as int, m0.num.0 as int, m0.den as int, m1.num.0 as int, m1.den as int);
        lemma_curve_at_right_end(td, p0.1 as int, p1.1 as int, m0.num.1 as int, m0.den as int, m1.num.1 as int, m1.den as int);
        lemma_curve_at_right_end(td, p0.2 as int, p1.2 as int, m0.num.2 as int, m0.den as int, m1.num.2 as int, m1.den as int);
    }
}

/// Behind the last control point the gradient keeps that point's colour.
pub proof fn lemma_gradient_behind_last_point(points: Seq<ControlPoint>, sample: int)
    requires
        well_formed(points),
        points.len() >= 1,
        beyond(sample, points[points.len() - 1].position),
    ensures
        interpolated(points, sample) == points[points.len() - 1].color,
{
    let last = points.len() - 1;
    assert(is_segment(points, sample, last)) by {
        assert forall|j: int| 0 < j <= last implies beyond(sample, (#[trigger] points[j]).position) by {
            if j < last {
                assert(points[j].position < points[last].position);
            }
        }
    }
    lemma_segment_from(points, sample, 0);
    lemma_segment_unique(points, sample, last, segment_of(points, sample));
}

/// A gradient table has `ARRAY_SIZE` entries, begins with the colour of the
/// first control point and ends with the colour of the last one.
pub proof fn lemma_table_spans_control_points(points: Seq<ControlPoint>)
    requires
        well_formed(points),
        points.len() >= 2,
    ensures
        gradient_table(points).len() == ARRAY_SIZE,
        gradient_table(points)[0] == solid(points[0].color),
        gradient_table(points)[ARRAY_SIZE - 1] == solid(points[points.len() - 1].color),
{
    let last = points.len() - 1;
    lemma_gradient_passes_through(points, 0, 0);
    if points[last].position == POSITION_SCALE {
        lemma_gradient_passes_through(points, last, LAST_SAMPLE as int);
    } else {
        lemma_gradient_behind_last_point(points, LAST_SAMPLE as int);
    }
}

} // verus!
