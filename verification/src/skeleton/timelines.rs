//! Timelines: keyframes of one property of one bone or slot, the curves
//! between them, and the value at any time.
use crate::fixed::byte_blend;
use crate::fixed::fraction;
use crate::fixed::Fixed;
use crate::fixed::ONE;
use crate::fixed::STRAIGHT_ANGLE_DEGREES;
use crate::hex::color_of;
use crate::hex::decode_color;
use crate::hex::white;
use crate::json;
use crate::json::CurveKind;
use crate::json::TimelineCurve;
use crate::skeleton::error::SkeletonError;
use crate::skeleton::SRT;
use vstd::prelude::*;

verus! {

/// The number of segments into which a Bezier curve is sampled.
pub const BEZIER_SEGMENTS: usize = 10;

/// A control number, held between zero and one.
pub open spec fn unit(c: int) -> int {
    if c < 0 {
        0
    } else if c > ONE as int {
        ONE as int
    } else {
        c
    }
}

/// A thousand times one coordinate of the cubic Bezier curve from 0 to 1
/// with the control numbers `c1` and `c2`, at `k` tenths of its parameter:
/// `3 (1 - t)^2 t c1 + 3 (1 - t) t^2 c2 + t^3` at `t = k / 10`.
pub open spec fn bezier_point(c1: int, c2: int, k: int) -> int {
    3 * (10 - k) * (10 - k) * k * c1 + 3 * (10 - k) * k * k * c2 + k * k * k * (ONE as int)
}

/// The samples of one coordinate of a Bezier curve, at one tenth of its
/// parameter up to ten tenths, each rounded down. Control numbers outside
/// of zero to one count as the nearer of the two.
pub open spec fn bezier_samples(c1: int, c2: int) -> Seq<Fixed> {
    Seq::new(
        BEZIER_SEGMENTS as nat,
        |i: int| Fixed { raw: (bezier_point(unit(c1), unit(c2), i + 1) / 1000) as i64 },
    )
}

/// The sample table of a curve: the x samples and the y samples of a Bezier
/// curve that has its four control numbers `cx1, cy1, cx2, cy2`. Any other
/// curve has none.
pub open spec fn curve_points(curve: CurveKind) -> Option<(Seq<Fixed>, Seq<Fixed>)> {
    match curve {
        CurveKind::Bezier(p) => if p.len() >= 4 {
            Some(
                (
                    bezier_samples(p[0].raw as int, p[2].raw as int),
                    bezier_samples(p[1].raw as int, p[3].raw as int),
                ),
            )
        } else {
            None
        },
        _ => None,
    }
}

/// The coordinate of a Bezier curve at each tenth, as a sum of multiples of
/// the control numbers.
proof fn lemma_bezier_values(c1: int, c2: int)
    ensures
        bezier_point(c1, c2, 0) == 0,
        bezier_point(c1, c2, 1) == 243 * c1 + 27 * c2 + ONE,
        bezier_point(c1, c2, 2) == 384 * c1 + 96 * c2 + 8 * ONE,
        bezier_point(c1, c2, 3) == 441 * c1 + 189 * c2 + 27 * ONE,
        bezier_point(c1, c2, 4) == 432 * c1 + 288 * c2 + 64 * ONE,
        bezier_point(c1, c2, 5) == 375 * c1 + 375 * c2 + 125 * ONE,
        bezier_point(c1, c2, 6) == 288 * c1 + 432 * c2 + 216 * ONE,
        bezier_point(c1, c2, 7) == 189 * c1 + 441 * c2 + 343 * ONE,
        bezier_point(c1, c2, 8) == 96 * c1 + 384 * c2 + 512 * ONE,
        bezier_point(c1, c2, 9) == 27 * c1 + 243 * c2 + 729 * ONE,
        bezier_point(c1, c2, 10) == 1000 * ONE,
        bezier_point(c1, c2, 11) == 33 * c1 - 363 * c2 + 1331 * ONE,
        bezier_point(c1, c2, 12) == 144 * c1 - 864 * c2 + 1728 * ONE,
{
    assert(bezier_point(c1, c2, 0) == 0) by (nonlinear_arith);
    assert(bezier_point(c1, c2, 10) == 1000 * ONE) by (nonlinear_arith);
    assert(bezier_point(c1, c2, 11) == 33 * c1 - 363 * c2 + 1331 * ONE) by (nonlinear_arith);
    assert(bezier_point(c1, c2, 12) == 144 * c1 - 864 * c2 + 1728 * ONE) by (nonlinear_arith);
}

/// What the forward differences of a Bezier coordinate rest on: the third
/// difference is the same at every step, and the coordinate stays within
/// bounds.
proof fn lemma_bezier_step(c1: int, c2: int, k: int)
    requires
        0 <= c1 <= ONE,
        0 <= c2 <= ONE,
        0 <= k <= 9,
    ensures
        bezier_point(c1, c2, k + 3) - 3 * bezier_point(c1, c2, k + 2) + 3 * bezier_point(
            c1,
            c2,
            k + 1,
        ) - bezier_point(c1, c2, k) == 6 * (3 * c1 - 3 * c2 + ONE),
        0 <= bezier_point(c1, c2, k) <= bezier_point(c1, c2, k + 1) <= 1000 * ONE,
        ONE <= bezier_point(c1, c2, k + 1),
        -2000 * ONE <= bezier_point(c1, c2, k + 2) <= 2000 * ONE,
        -2000 * ONE <= bezier_point(c1, c2, k + 3) <= 2000 * ONE,
{
    lemma_bezier_values(c1, c2);
}

/// Whether `s` is a row of samples of a Bezier coordinate: ten of them,
/// above zero, none below the one before it, the last of them one.
pub open spec fn is_sample_row(s: Seq<Fixed>) -> bool {
    &&& s.len() == BEZIER_SEGMENTS
    &&& s[0].raw >= 1000
    &&& forall|i: int| 0 <= i < BEZIER_SEGMENTS - 1 ==> (#[trigger] s[i]).raw <= s[i + 1].raw
    &&& s[BEZIER_SEGMENTS - 1].raw == ONE
}

/// The samples of a Bezier coordinate are a row of samples, whatever the
/// control numbers.
pub proof fn lemma_samples_are_a_row(c1: int, c2: int)
    ensures
        is_sample_row(bezier_samples(c1, c2)),
{
    let s = bezier_samples(c1, c2);
    lemma_bezier_step(unit(c1), unit(c2), 0);
    lemma_bezier_step(unit(c1), unit(c2), 9);
    assert forall|i: int| 0 <= i < BEZIER_SEGMENTS - 1 implies (#[trigger] s[i]).raw <= s[i
        + 1].raw by {
        lemma_bezier_step(unit(c1), unit(c2), i);
        lemma_bezier_step(unit(c1), unit(c2), i + 1);
    }
}

proof fn lemma_row_ascends(s: Seq<Fixed>, i: int, j: int)
    requires
        is_sample_row(s),
        0 <= i <= j < BEZIER_SEGMENTS,
    ensures
        s[i].raw <= s[j].raw,
    decreases j - i,
{
    if i < j {
        lemma_row_ascends(s, i, j - 1);
        assert(s[j - 1].raw <= s[j - 1 + 1].raw);
    }
}

/// In a row of samples every sample lies between a thousandth and one, and
/// none lies above a later one.
pub proof fn lemma_row_order(s: Seq<Fixed>, i: int, j: int)
    requires
        is_sample_row(s),
        0 <= i <= j < BEZIER_SEGMENTS,
    ensures
        1000 <= s[i].raw <= s[j].raw <= ONE,
{
    lemma_row_ascends(s, 0, i);
    lemma_row_ascends(s, i, j);
    lemma_row_ascends(s, j, BEZIER_SEGMENTS - 1);
}

/// The first place at or after `from` whose sample lies above `p`, or the
/// length of the row where there is none.
pub open spec fn first_above(xs: Seq<Fixed>, p: int, from: int) -> int
    decreases xs.len() - from,
{
    if from >= xs.len() {
        xs.len() as int
    } else if p < xs[from].raw {
        from
    } else {
        first_above(xs, p, from + 1)
    }
}

/// What a fraction of time becomes by a sample table. The fraction is
/// placed between two neighbouring x samples, the origin standing before
/// the first, and the result lies as far between the two y samples,
/// rounded down. At and after the last sample, which is the end of the
/// curve, it is one.
pub open spec fn table_percent(xs: Seq<Fixed>, ys: Seq<Fixed>, p: int) -> int {
    let i = first_above(xs, p, 0);
    if i == 0 {
        ys[0].raw * p / (xs[0].raw as int)
    } else if i < xs.len() {
        ys[i - 1].raw + (ys[i].raw - ys[i - 1].raw) * (p - xs[i - 1].raw) / (xs[i].raw - xs[i
            - 1].raw)
    } else {
        ONE as int
    }
}

/// What a fraction of time between two keyframes becomes by the curve of
/// the first: nothing by a stepped curve, itself by a linear one, and by a
/// Bezier curve what its sample table makes of it. A Bezier curve without
/// its four control numbers counts as linear.
pub open spec fn curve_percent(curve: CurveKind, p: int) -> int {
    match curve {
        CurveKind::Stepped => 0,
        CurveKind::Linear => p,
        CurveKind::Bezier(_) => match curve_points(curve) {
            Some((xs, ys)) => table_percent(xs, ys, p),
            None => p,
        },
    }
}

proof fn lemma_first_above(xs: Seq<Fixed>, p: int, from: int)
    requires
        0 <= from <= xs.len(),
    ensures
        from <= first_above(xs, p, from) <= xs.len(),
        forall|k: int| from <= k < first_above(xs, p, from) ==> (#[trigger] xs[k]).raw <= p,
        first_above(xs, p, from) < xs.len() ==> p < xs[first_above(xs, p, from)].raw,
    decreases xs.len() - from,
{
    if from < xs.len() && !(p < xs[from].raw) {
        lemma_first_above(xs, p, from + 1);
    }
}

proof fn lemma_scaled_part(a: int, u: int, d: int)
    by (nonlinear_arith)
    requires
        0 <= a,
        0 <= u <= d,
        0 < d,
    ensures
        0 <= a * u / d <= a,
        0 <= a * u <= a * d,
{
}

proof fn lemma_unit_product(a: int, u: int)
    by (nonlinear_arith)
    requires
        0 <= a <= 1_000_000,
        0 <= u <= 1_000_000,
    ensures
        0 <= a * u <= 1_000_000_000_000,
{
}

proof fn lemma_scaled_order(a: int, u: int, v: int, d: int)
    by (nonlinear_arith)
    requires
        0 <= a,
        u <= v,
        0 < d,
    ensures
        a * u / d <= a * v / d,
{
}

/// Between which samples the result of a table lies.
proof fn lemma_table_percent_bounds(xs: Seq<Fixed>, ys: Seq<Fixed>, p: int)
    requires
        is_sample_row(xs),
        is_sample_row(ys),
        0 <= p <= ONE,
    ensures
        ({
            let i = first_above(xs, p, 0);
            let r = table_percent(xs, ys, p);
            &&& 0 <= i <= BEZIER_SEGMENTS
            &&& i == 0 ==> 0 <= r <= ys[0].raw
            &&& 0 < i < BEZIER_SEGMENTS ==> ys[i - 1].raw <= r <= ys[i].raw
            &&& i == BEZIER_SEGMENTS ==> r == ONE
            &&& 0 <= r <= ONE
        }),
{
    let i = first_above(xs, p, 0);
    lemma_first_above(xs, p, 0);
    if i == 0 {
        lemma_row_order(ys, 0, 0);
        lemma_scaled_part(ys[0].raw as int, p, xs[0].raw as int);
    } else if i < BEZIER_SEGMENTS {
        lemma_row_order(ys, i - 1, i);
        lemma_row_order(xs, i - 1, i);
        assert(xs[i - 1].raw <= p);
        lemma_scaled_part(
            ys[i].raw - ys[i - 1].raw,
            p - xs[i - 1].raw,
            xs[i].raw - xs[i - 1].raw,
        );
    }
}

/// A sample table never takes a later fraction of time to an earlier
/// result.
proof fn lemma_table_percent_monotone(xs: Seq<Fixed>, ys: Seq<Fixed>, p: int, q: int)
    requires
        is_sample_row(xs),
        is_sample_row(ys),
        0 <= p <= q <= ONE,
    ensures
        table_percent(xs, ys, p) <= table_percent(xs, ys, q),
{
    let i = first_above(xs, p, 0);
    let j = first_above(xs, q, 0);
    lemma_first_above(xs, p, 0);
    lemma_first_above(xs, q, 0);
    lemma_table_percent_bounds(xs, ys, p);
    lemma_table_percent_bounds(xs, ys, q);
    if j < i {
        assert(xs[j].raw <= p);
    }
    assert(i <= j);
    if i == j {
        if i == 0 {
            lemma_row_order(ys, 0, 0);
            lemma_scaled_order(ys[0].raw as int, p, q, xs[0].raw as int);
        } else if i < BEZIER_SEGMENTS {
            lemma_row_order(ys, i - 1, i);
            lemma_row_order(xs, i - 1, i);
            assert(xs[i - 1].raw <= p);
            lemma_scaled_order(
                ys[i].raw - ys[i - 1].raw,
                p - xs[i - 1].raw,
                q - xs[i - 1].raw,
                xs[i].raw - xs[i - 1].raw,
            );
        }
    } else if j < BEZIER_SEGMENTS {
        lemma_row_order(ys, i, j - 1);
    }
}

/// A curve takes zero to zero and, unless it is stepped, one to one.
pub proof fn lemma_curve_percent_ends(curve: CurveKind)
    ensures
        curve_percent(curve, 0) == 0,
        curve !is Stepped ==> curve_percent(curve, ONE as int) == ONE,
        curve is Stepped ==> curve_percent(curve, ONE as int) == 0,
{
    match curve_points(curve) {
        Some((xs, ys)) => {
            let p = curve->Bezier_0;
            lemma_samples_are_a_row(p[0].raw as int, p[2].raw as int);
            lemma_samples_are_a_row(p[1].raw as int, p[3].raw as int);
            lemma_first_above(xs, 0, 0);
            lemma_first_above(xs, ONE as int, 0);
            lemma_table_percent_bounds(xs, ys, ONE as int);
            let i = first_above(xs, ONE as int, 0);
            if i < BEZIER_SEGMENTS {
                lemma_row_order(xs, i, i);
            }
            assert(ys[0].raw * 0 / (xs[0].raw as int) == 0) by (nonlinear_arith)
                requires
                    xs[0].raw > 0,
            ;
        },
        None => {},
    }
}

/// A curve never takes a later fraction of time to an earlier result, and
/// its results lie between zero and one.
pub proof fn lemma_curve_percent_monotone(curve: CurveKind, p: int, q: int)
    requires
        0 <= p <= q <= ONE,
    ensures
        0 <= curve_percent(curve, p) <= curve_percent(curve, q) <= ONE,
{
    match curve_points(curve) {
        Some((xs, ys)) => {
            let c = curve->Bezier_0;
            lemma_samples_are_a_row(c[0].raw as int, c[2].raw as int);
            lemma_samples_are_a_row(c[1].raw as int, c[3].raw as int);
            lemma_table_percent_bounds(xs, ys, p);
            lemma_table_percent_bounds(xs, ys, q);
            lemma_table_percent_monotone(xs, ys, p, q);
        },
        None => {},
    }
}

/// A value that a timeline can hold: it can be blended with the value of
/// the next keyframe.
pub trait Interpolate: Sized {
    /// The value without its storage.
    type Model;

    /// The value without its storage.
    spec fn model(&self) -> Self::Model;

    /// The value that lies the fraction `percent` of the way from `a` to
    /// `b`.
    spec fn blended(a: Self::Model, b: Self::Model, percent: Fixed) -> Self::Model;

    /// The value that lies the fraction `percent` of the way from `self`
    /// to `next`.
    fn interpolate(&self, next: &Self, percent: Fixed) -> (r: Self)
        ensures
            r.model() == Self::blended(self.model(), next.model(), percent),
    ;

    /// A copy of the value.
    fn duplicate(&self) -> (r: Self)
        ensures
            r.model() == self.model(),
    ;
}

/// An angle in radians. Between two angles the blend goes round the shorter
/// way.
impl Interpolate for Fixed {
    type Model = Fixed;

    open spec fn model(&self) -> Fixed {
        *self
    }

    open spec fn blended(a: Fixed, b: Fixed, percent: Fixed) -> Fixed {
        a.lerp_angle(b, percent)
    }

    fn interpolate(&self, next: &Self, percent: Fixed) -> (r: Self) {
        self.lerp_angle(*next, percent)
    }

    fn duplicate(&self) -> (r: Self) {
        *self
    }
}

/// A vector of the plane, blended part by part.
impl Interpolate for (Fixed, Fixed) {
    type Model = (Fixed, Fixed);

    open spec fn model(&self) -> (Fixed, Fixed) {
        *self
    }

    open spec fn blended(a: (Fixed, Fixed), b: (Fixed, Fixed), percent: Fixed) -> (Fixed, Fixed) {
        (a.0.lerp(b.0, percent), a.1.lerp(b.1, percent))
    }

    fn interpolate(&self, next: &Self, percent: Fixed) -> (r: Self) {
        (self.0.lerp(next.0, percent), self.1.lerp(next.1, percent))
    }

    fn duplicate(&self) -> (r: Self) {
        *self
    }
}

/// The blend of two colours: as many channels as the shorter of the two
/// has, each blended as a byte.
pub open spec fn color_blend(a: Seq<u8>, b: Seq<u8>, percent: Fixed) -> Seq<u8> {
    Seq::new(
        if a.len() <= b.len() {
            a.len()
        } else {
            b.len()
        },
        |i: int| byte_blend(a[i], b[i], percent.raw as int),
    )
}

/// A colour, one byte for each channel.
impl Interpolate for Vec<u8> {
    type Model = Seq<u8>;

    open spec fn model(&self) -> Seq<u8> {
        self@
    }

    open spec fn blended(a: Seq<u8>, b: Seq<u8>, percent: Fixed) -> Seq<u8> {
        color_blend(a, b, percent)
    }

    fn interpolate(&self, next: &Self, percent: Fixed) -> (r: Self) {
        let n: usize = if self.len() <= next.len() {
            self.len()
        } else {
            next.len()
        };
        let mut out: Vec<u8> = Vec::new();
        let mut i: usize = 0;
        while i < n
            invariant
                i <= n,
                n <= self.len(),
                n <= next.len(),
                out@.len() == i,
                forall|k: int|
                    0 <= k < i ==> out@[k] == byte_blend(self@[k], next@[k], percent.raw as int),
            decreases n - i,
        {
            out.push(Fixed::lerp_byte(self[i], next[i], percent));
            i += 1;
        }
        assert(out@ =~= color_blend(self@, next@, percent));
        out
    }

    fn duplicate(&self) -> (r: Self) {
        let mut out: Vec<u8> = Vec::new();
        let mut i: usize = 0;
        while i < self.len()
            invariant
                i <= self.len(),
                out@ == self@.subrange(0, i as int),
            decreases self.len() - i,
        {
            out.push(self[i]);
            i += 1;
        }
        assert(out@ == self@);
        out
    }
}

/// The model of a name that may be absent.
pub open spec fn name_model(name: Option<String>) -> Option<Seq<char>> {
    match name {
        Some(s) => Some(s@),
        None => None,
    }
}

/// The name of an attachment, or none. Names are not blended: the earlier
/// one holds until the next keyframe.
impl Interpolate for Option<String> {
    type Model = Option<Seq<char>>;

    open spec fn model(&self) -> Option<Seq<char>> {
        name_model(*self)
    }

    open spec fn blended(a: Option<Seq<char>>, b: Option<Seq<char>>, percent: Fixed) -> Option<
        Seq<char>,
    > {
        a
    }

    fn interpolate(&self, next: &Self, percent: Fixed) -> (r: Self) {
        self.duplicate()
    }

    fn duplicate(&self) -> (r: Self) {
        match self {
            Some(s) => Some(s.clone()),
            None => None,
        }
    }
}

/// A keyframe: a value at a time, with the curve that leads to the next
/// keyframe.
pub struct CurveTimeline<T> {
    pub time: Fixed,
    pub curve: TimelineCurve,
    /// the sample table of a Bezier curve: x samples and y samples
    pub points: Option<(Vec<Fixed>, Vec<Fixed>)>,
    pub value: T,
}

/// A sample table without its storage.
pub open spec fn points_model(points: Option<(Vec<Fixed>, Vec<Fixed>)>) -> Option<
    (Seq<Fixed>, Seq<Fixed>),
> {
    match points {
        Some((xs, ys)) => Some((xs@, ys@)),
        None => None,
    }
}

impl<T> CurveTimeline<T> {
    /// Whether the keyframe holds the sample table of its curve.
    pub open spec fn wf(&self) -> bool {
        points_model(self.points) == curve_points(self.curve@)
    }

    /// The sample table of a curve, by forward differences: the x samples
    /// and the y samples of a Bezier curve at each tenth of its parameter.
    /// A curve that is not a Bezier curve of four control numbers has no
    /// table.
    pub fn compute_points(curve: &TimelineCurve) -> (r: Option<(Vec<Fixed>, Vec<Fixed>)>)
        ensures
            points_model(r) == curve_points(curve@),
    {
        let (cx1, cy1, cx2, cy2): (i64, i64, i64, i64) = match curve {
            TimelineCurve::CurveStepped | TimelineCurve::CurveLinear => {
                return None;
            },
            TimelineCurve::CurveBezier(p) => {
                if p.len() < 4 {
                    return None;
                }
                (held_in_unit(p[0]), held_in_unit(p[1]), held_in_unit(p[2]), held_in_unit(p[3]))
            },
        };
        // all of these a thousandfold: a tenth cubed is a thousandth
        let (tmp1x, tmp1y): (i64, i64) = (-cx1 * 2 + cx2, -cy1 * 2 + cy2);
        let (tmp2x, tmp2y): (i64, i64) = ((cx1 - cx2) * 3 + ONE, (cy1 - cy2) * 3 + ONE);
        let mut dfx: i64 = cx1 * 300 + tmp1x * 30 + tmp2x;
        let mut dfy: i64 = cy1 * 300 + tmp1y * 30 + tmp2y;
        let (mut ddfx, mut ddfy): (i64, i64) = (tmp1x * 60 + tmp2x * 6, tmp1y * 60 + tmp2y * 6);
        let (dddfx, dddfy): (i64, i64) = (tmp2x * 6, tmp2y * 6);

        let mut vec_x: Vec<Fixed> = Vec::with_capacity(BEZIER_SEGMENTS);
        let mut vec_y: Vec<Fixed> = Vec::with_capacity(BEZIER_SEGMENTS);
        let (mut x, mut y): (i64, i64) = (dfx, dfy);
        proof {
            lemma_bezier_values(cx1 as int, cx2 as int);
            lemma_bezier_values(cy1 as int, cy2 as int);
        }
        let mut i: usize = 0;
        while i < BEZIER_SEGMENTS
            invariant
                i <= BEZIER_SEGMENTS,
                0 <= cx1 <= ONE,
                0 <= cx2 <= ONE,
                0 <= cy1 <= ONE,
                0 <= cy2 <= ONE,
                dddfx == 6 * (3 * cx1 - 3 * cx2 + ONE),
                dddfy == 6 * (3 * cy1 - 3 * cy2 + ONE),
                x == bezier_point(cx1 as int, cx2 as int, i + 1),
                y == bezier_point(cy1 as int, cy2 as int, i + 1),
                dfx == bezier_point(cx1 as int, cx2 as int, i + 1) - bezier_point(
                    cx1 as int,
                    cx2 as int,
                    i as int,
                ),
                dfy == bezier_point(cy1 as int, cy2 as int, i + 1) - bezier_point(
                    cy1 as int,
                    cy2 as int,
                    i as int,
                ),
                ddfx == bezier_point(cx1 as int, cx2 as int, i + 2) - 2 * bezier_point(
                    cx1 as int,
                    cx2 as int,
                    i + 1,
                ) + bezier_point(cx1 as int, cx2 as int, i as int),
                ddfy == bezier_point(cy1 as int, cy2 as int, i + 2) - 2 * bezier_point(
                    cy1 as int,
                    cy2 as int,
                    i + 1,
                ) + bezier_point(cy1 as int, cy2 as int, i as int),
                vec_x@.len() == i,
                vec_y@.len() == i,
                forall|k: int|
                    0 <= k < i ==> (#[trigger] vec_x@[k]).raw == bezier_point(
                        cx1 as int,
                        cx2 as int,
                        k + 1,
                    ) / 1000,
                forall|k: int|
                    0 <= k < i ==> (#[trigger] vec_y@[k]).raw == bezier_point(
                        cy1 as int,
                        cy2 as int,
                        k + 1,
                    ) / 1000,
            decreases BEZIER_SEGMENTS - i,
        {
            proof {
                lemma_bezier_step(cx1 as int, cx2 as int, i as int);
                lemma_bezier_step(cy1 as int, cy2 as int, i as int);
            }
            vec_x.push(Fixed { raw: x / 1000 });
            vec_y.push(Fixed { raw: y / 1000 });
            dfx += ddfx;
            dfy += ddfy;
            ddfx += dddfx;
            ddfy += dddfy;
            x += dfx;
            y += dfy;
            i += 1;
        }
        proof {
            let p = curve@->Bezier_0;
            assert(vec_x@ =~= bezier_samples(p[0].raw as int, p[2].raw as int));
            assert(vec_y@ =~= bezier_samples(p[1].raw as int, p[3].raw as int));
        }
        Some((vec_x, vec_y))
    }

    /// Get percent conversion depending on curve type
    pub fn get_percent(&self, percent: Fixed) -> (r: Fixed)
        requires
            self.wf(),
            0 <= percent.raw <= ONE,
        ensures
            r.raw == curve_percent(self.curve@, percent.raw as int),
            0 <= r.raw <= ONE,
    {
        let (x, y): (&Vec<Fixed>, &Vec<Fixed>) = match self.curve {
            TimelineCurve::CurveStepped => {
                return Fixed { raw: 0 };
            },
            TimelineCurve::CurveLinear => {
                return percent;
            },
            TimelineCurve::CurveBezier(_) => match &self.points {
                Some((x, y)) => (x, y),
                None => {
                    return percent;
                },
            },
        };
        proof {
            let p = self.curve@->Bezier_0;
            lemma_samples_are_a_row(p[0].raw as int, p[2].raw as int);
            lemma_samples_are_a_row(p[1].raw as int, p[3].raw as int);
            lemma_table_percent_bounds(x@, y@, percent.raw as int);
            lemma_first_above(x@, percent.raw as int, 0);
        }
        // bezier curve
        let mut i: usize = 0;
        while i < BEZIER_SEGMENTS && !(percent.raw < x[i].raw)
            invariant
                i <= BEZIER_SEGMENTS,
                x@.len() == BEZIER_SEGMENTS,
                first_above(x@, percent.raw as int, 0) == first_above(
                    x@,
                    percent.raw as int,
                    i as int,
                ),
            decreases BEZIER_SEGMENTS - i,
        {
            i += 1;
        }
        if i == 0 {
            proof {
                lemma_row_order(x@, 0, 0);
                lemma_row_order(y@, 0, 0);
                lemma_scaled_part(y@[0].raw as int, percent.raw as int, x@[0].raw as int);
                lemma_unit_product(y@[0].raw as int, percent.raw as int);
            }
            Fixed { raw: y[0].raw * percent.raw / x[0].raw }
        } else if i < BEZIER_SEGMENTS {
            proof {
                lemma_row_order(x@, i - 1, i as int);
                lemma_row_order(y@, i - 1, i as int);
                assert(x@[i - 1].raw <= percent.raw);
                lemma_scaled_part(
                    y@[i as int].raw - y@[i - 1].raw,
                    percent.raw - x@[i - 1].raw,
                    x@[i as int].raw - x@[i - 1].raw,
                );
                lemma_unit_product(
                    y@[i as int].raw - y@[i - 1].raw,
                    percent.raw - x@[i - 1].raw,
                );
            }
            Fixed {
                raw: y[i - 1].raw + (y[i].raw - y[i - 1].raw) * (percent.raw - x[i - 1].raw) / (
                x[i].raw - x[i - 1].raw),
            }
        } else {
            Fixed { raw: ONE }
        }
    }
}

/// A control number, held between zero and one.
fn held_in_unit(c: Fixed) -> (r: i64)
    ensures
        r == unit(c.raw as int),
{
    if c.raw < 0 {
        0
    } else if c.raw > ONE {
        ONE
    } else {
        c.raw
    }
}

/// Set of timelines: the keyframes of one property, in the order of the
/// document.
pub struct CurveTimelines<T> {
    pub timelines: Vec<CurveTimeline<T>>,
}

/// The first keyframe at or after the place `from` whose time lies after
/// `t`, or the number of keyframes where there is none.
pub open spec fn first_after<T>(keys: Seq<CurveTimeline<T>>, t: int, from: int) -> int
    decreases keys.len() - from,
{
    if from >= keys.len() {
        keys.len() as int
    } else if t < keys[from].time.raw {
        from
    } else {
        first_after(keys, t, from + 1)
    }
}

proof fn lemma_first_after<T>(keys: Seq<CurveTimeline<T>>, t: int, from: int)
    requires
        0 <= from <= keys.len(),
    ensures
        from <= first_after(keys, t, from) <= keys.len(),
        forall|k: int|
            from <= k < first_after(keys, t, from) ==> (#[trigger] keys[k]).time.raw <= t,
        first_after(keys, t, from) < keys.len() ==> t < keys[first_after(keys, t, from)].time.raw,
    decreases keys.len() - from,
{
    if from < keys.len() && !(t < keys[from].time.raw) {
        lemma_first_after(keys, t, from + 1);
    }
}

impl<T: Interpolate> CurveTimelines<T> {
    /// Whether every keyframe holds the sample table of its curve.
    pub open spec fn wf(&self) -> bool {
        forall|i: int| 0 <= i < self.timelines@.len() ==> (#[trigger] self.timelines@[i]).wf()
    }

    /// The value at the time `t`. There is none without keyframes and
    /// before the first of them. From the last keyframe on that is not
    /// after `t` the value is that keyframe's; before that, it is the blend
    /// of the two keyframes around `t`, by the curve of the earlier one.
    pub open spec fn value_at(&self, t: Fixed) -> Option<T::Model> {
        let keys = self.timelines@;
        if keys.len() == 0 || t.raw < keys[0].time.raw {
            None
        } else {
            let j = first_after(keys, t.raw as int, 1);
            if j < keys.len() {
                Some(
                    T::blended(
                        keys[j - 1].value.model(),
                        keys[j].value.model(),
                        Fixed {
                            raw: curve_percent(
                                keys[j - 1].curve@,
                                fraction(
                                    t.raw as int,
                                    keys[j - 1].time.raw as int,
                                    keys[j].time.raw as int,
                                ),
                            ) as i64,
                        },
                    ),
                )
            } else {
                Some(keys[keys.len() - 1].value.model())
            }
        }
    }

    /// interpolates `value` in the interval containing elapsed
    pub fn interpolate(&self, elapsed: Fixed) -> (r: Option<T>)
        requires
            self.wf(),
        ensures
            match r {
                Some(v) => self.value_at(elapsed) == Some(v.model()),
                None => self.value_at(elapsed) is None,
            },
    {
        let n: usize = self.timelines.len();
        if n == 0 || elapsed.raw < self.timelines[0].time.raw {
            return None;
        }
        let mut j: usize = 1;
        while j < n && !(elapsed.raw < self.timelines[j].time.raw)
            invariant
                1 <= j <= n,
                n == self.timelines@.len(),
                self.timelines@[j - 1].time.raw <= elapsed.raw,
                first_after(self.timelines@, elapsed.raw as int, 1) == first_after(
                    self.timelines@,
                    elapsed.raw as int,
                    j as int,
                ),
            decreases n - j,
        {
            j += 1;
        }
        if j < n {
            let prev: &CurveTimeline<T> = &self.timelines[j - 1];
            let next: &CurveTimeline<T> = &self.timelines[j];
            let percent: Fixed = Fixed::fraction(elapsed, prev.time, next.time);
            let curve_percent: Fixed = prev.get_percent(percent);
            Some(prev.value.interpolate(&next.value, curve_percent))
        } else {
            Some(self.timelines[n - 1].value.duplicate())
        }
    }

    /// Before the first keyframe a timeline has no value, and a timeline
    /// without keyframes has none at any time.
    pub proof fn lemma_none_before_first(&self, t: Fixed)
        requires
            self.timelines@.len() == 0 || t.raw < self.timelines@[0].time.raw,
        ensures
            self.value_at(t) is None,
    {
    }

    /// At and after the time of the last keyframe, a timeline whose times
    /// ascend has the value of the last keyframe.
    pub proof fn lemma_last_value_holds(&self, t: Fixed)
        requires
            self.timelines@.len() > 0,
            forall|i: int, j: int|
                0 <= i <= j < self.timelines@.len() ==> self.timelines@[i].time.raw
                    <= self.timelines@[j].time.raw,
            self.timelines@[self.timelines@.len() - 1].time.raw <= t.raw,
        ensures
            self.value_at(t) == Some(self.timelines@[self.timelines@.len() - 1].value.model()),
    {
        let keys = self.timelines@;
        lemma_first_after(keys, t.raw as int, 1);
        let j = first_after(keys, t.raw as int, 1);
        if j < keys.len() {
            assert(keys[j].time.raw <= keys[keys.len() - 1].time.raw);
        }
    }
}

/// The curve of a keyframe of a document: linear where it names none.
pub open spec fn curve_or_linear(curve: Option<TimelineCurve>) -> CurveKind {
    match curve {
        Some(c) => c@,
        None => CurveKind::Linear,
    }
}

fn curve_or_linear_of(curve: &Option<TimelineCurve>) -> (r: TimelineCurve)
    ensures
        r@ == curve_or_linear(*curve),
{
    match curve {
        Some(c) => c.duplicate(),
        None => TimelineCurve::CurveLinear,
    }
}

/// A keyframe of a document, read as a time, a curve and a value.
pub trait Curve<T: Interpolate> {
    spec fn time_spec(&self) -> Fixed;

    spec fn curve_spec(&self) -> CurveKind;

    /// The value of the keyframe, or none where what the document holds
    /// cannot be read as one.
    spec fn value_spec(&self) -> Option<T::Model>;

    fn time(&self) -> (r: Fixed)
        ensures
            r == self.time_spec(),
    ;

    fn curve(&self) -> (r: TimelineCurve)
        ensures
            r@ == self.curve_spec(),
    ;

    fn value(&self) -> (r: Result<T, SkeletonError>)
        ensures
            match r {
                Ok(v) => self.value_spec() == Some(v.model()),
                Err(e) => self.value_spec() is None && e is ColorDecodeError,
            },
    ;
}

/// A translation: a part that is absent is zero.
impl Curve<(Fixed, Fixed)> for json::BoneTranslateTimeline {
    open spec fn time_spec(&self) -> Fixed {
        self.time
    }

    open spec fn curve_spec(&self) -> CurveKind {
        curve_or_linear(self.curve)
    }

    open spec fn value_spec(&self) -> Option<(Fixed, Fixed)> {
        Some((self.x.unwrap_or(Fixed { raw: 0 }), self.y.unwrap_or(Fixed { raw: 0 })))
    }

    fn time(&self) -> (r: Fixed) {
        self.time
    }

    fn curve(&self) -> (r: TimelineCurve) {
        curve_or_linear_of(&self.curve)
    }

    fn value(&self) -> (r: Result<(Fixed, Fixed), SkeletonError>) {
        Ok(
            (
                match self.x {
                    Some(v) => v,
                    None => Fixed { raw: 0 },
                },
                match self.y {
                    Some(v) => v,
                    None => Fixed { raw: 0 },
                },
            ),
        )
    }
}

/// A scale: a part that is absent is one.
impl Curve<(Fixed, Fixed)> for json::BoneScaleTimeline {
    open spec fn time_spec(&self) -> Fixed {
        self.time
    }

    open spec fn curve_spec(&self) -> CurveKind {
        curve_or_linear(self.curve)
    }

    open spec fn value_spec(&self) -> Option<(Fixed, Fixed)> {
        Some((self.x.unwrap_or(Fixed { raw: ONE }), self.y.unwrap_or(Fixed { raw: ONE })))
    }

    fn time(&self) -> (r: Fixed) {
        self.time
    }

    fn curve(&self) -> (r: TimelineCurve) {
        curve_or_linear_of(&self.curve)
    }

    fn value(&self) -> (r: Result<(Fixed, Fixed), SkeletonError>) {
        Ok(
            (
                match self.x {
                    Some(v) => v,
                    None => Fixed { raw: ONE },
                },
                match self.y {
                    Some(v) => v,
                    None => Fixed { raw: ONE },
                },
            ),
        )
    }
}

/// The rotation that a keyframe of a document gives in degrees: brought
/// above minus a hundred and eighty degrees and at or below a hundred and
/// eighty, then taken to radians. An angle that is absent is zero.
pub open spec fn rotation_of(angle: Option<Fixed>) -> Fixed {
    angle.unwrap_or(Fixed { raw: 0 }).wrapped(Fixed { raw: STRAIGHT_ANGLE_DEGREES }).to_radians()
}

impl Curve<Fixed> for json::BoneRotateTimeline {
    open spec fn time_spec(&self) -> Fixed {
        self.time
    }

    open spec fn curve_spec(&self) -> CurveKind {
        curve_or_linear(self.curve)
    }

    open spec fn value_spec(&self) -> Option<Fixed> {
        Some(rotation_of(self.angle))
    }

    fn time(&self) -> (r: Fixed) {
        self.time
    }

    fn curve(&self) -> (r: TimelineCurve) {
        curve_or_linear_of(&self.curve)
    }

    fn value(&self) -> (r: Result<Fixed, SkeletonError>) {
        let angle: Fixed = match self.angle {
            Some(v) => v,
            None => Fixed { raw: 0 },
        };
        Ok(angle.wrapped(Fixed { raw: STRAIGHT_ANGLE_DEGREES }).to_radians())
    }
}

/// A colour, written as hexadecimal text.
impl Curve<Vec<u8>> for json::SlotColorTimeline {
    open spec fn time_spec(&self) -> Fixed {
        self.time
    }

    open spec fn curve_spec(&self) -> CurveKind {
        curve_or_linear(self.curve)
    }

    open spec fn value_spec(&self) -> Option<Seq<u8>> {
        color_of(self.color)
    }

    fn time(&self) -> (r: Fixed) {
        self.time
    }

    fn curve(&self) -> (r: TimelineCurve) {
        curve_or_linear_of(&self.curve)
    }

    fn value(&self) -> (r: Result<Vec<u8>, SkeletonError>) {
        decode_color(&self.color)
    }
}

/// The name of an attachment, which holds until the next keyframe.
impl Curve<Option<String>> for json::SlotAttachmentTimeline {
    open spec fn time_spec(&self) -> Fixed {
        self.time
    }

    open spec fn curve_spec(&self) -> CurveKind {
        CurveKind::Stepped
    }

    open spec fn value_spec(&self) -> Option<Option<Seq<char>>> {
        Some(name_model(self.name))
    }

    fn time(&self) -> (r: Fixed) {
        self.time
    }

    fn curve(&self) -> (r: TimelineCurve) {
        TimelineCurve::CurveStepped
    }

    fn value(&self) -> (r: Result<Option<String>, SkeletonError>) {
        Ok(self.name.duplicate())
    }
}

/// The keyframes that a document lists: none where it has no list.
pub open spec fn listed<U>(list: Option<Vec<U>>) -> Seq<U> {
    match list {
        Some(v) => v@,
        None => Seq::empty(),
    }
}

/// Whether the keyframes `keys` are those of the document's keyframes
/// `source`: as many, in the same order, each with the time, the curve and
/// the value of its source.
pub open spec fn reads<T: Interpolate, U: Curve<T>>(
    keys: Seq<CurveTimeline<T>>,
    source: Seq<U>,
) -> bool {
    &&& keys.len() == source.len()
    &&& forall|i: int|
        0 <= i < keys.len() ==> {
            &&& (#[trigger] keys[i]).time == source[i].time_spec()
            &&& keys[i].curve@ == source[i].curve_spec()
            &&& Some(keys[i].value.model()) == source[i].value_spec()
            &&& keys[i].wf()
        }
}

impl<T: Interpolate> CurveTimelines<T> {
    /// Converts vector of json timelines to vector or timelines. It fails
    /// where the value of a keyframe cannot be read, and only there.
    pub fn from_json_vec<U: Curve<T>>(jtimelines: Option<Vec<U>>) -> (r: Result<
        CurveTimelines<T>,
        SkeletonError,
    >)
        ensures
            match r {
                Ok(c) => reads(c.timelines@, listed(jtimelines)) && c.wf(),
                Err(e) => e is ColorDecodeError && exists|i: int|
                    0 <= i < listed(jtimelines).len() && (#[trigger] listed(
                        jtimelines,
                    )[i]).value_spec() is None,
            },
    {
        match &jtimelines {
            None => Ok(CurveTimelines { timelines: Vec::new() }),
            Some(timelines) => {
                let mut curves: Vec<CurveTimeline<T>> = Vec::with_capacity(timelines.len());
                let mut i: usize = 0;
                while i < timelines.len()
                    invariant
                        i <= timelines.len(),
                        timelines@ == listed(jtimelines),
                        reads(curves@, timelines@.subrange(0, i as int)),
                    decreases timelines.len() - i,
                {
                    let t: &U = &timelines[i];
                    let value: T = match t.value() {
                        Ok(v) => v,
                        Err(e) => {
                            assert(listed(jtimelines)[i as int].value_spec() is None);
                            return Err(e);
                        },
                    };
                    let curve: TimelineCurve = t.curve();
                    let points = CurveTimeline::<T>::compute_points(&curve);
                    curves.push(CurveTimeline { time: t.time(), curve, value, points });
                    i += 1;
                }
                assert(timelines@.subrange(0, i as int) == timelines@);
                Ok(CurveTimelines { timelines: curves })
            },
        }
    }
}

/// The timelines of one bone: its translation, rotation and scale.
pub struct BoneTimeline {
    pub translate: CurveTimelines<(Fixed, Fixed)>,
    pub rotate: CurveTimelines<Fixed>,
    pub scale: CurveTimelines<(Fixed, Fixed)>,
}

impl BoneTimeline {
    /// Whether every keyframe holds the sample table of its curve.
    pub open spec fn wf(&self) -> bool {
        &&& self.translate.wf()
        &&& self.rotate.wf()
        &&& self.scale.wf()
    }

    /// Whether the timelines are those that the document gives for a bone.
    pub open spec fn reads(&self, json: json::BoneTimeline) -> bool {
        &&& reads(self.translate.timelines@, listed(json.translate))
        &&& reads(self.rotate.timelines@, listed(json.rotate))
        &&& reads(self.scale.timelines@, listed(json.scale))
    }

    /// converts json data into BoneTimeline
    pub fn from_json(json: json::BoneTimeline) -> (r: Result<BoneTimeline, SkeletonError>)
        ensures
            r matches Ok(timeline) && timeline.reads(json) && timeline.wf(),
    {
        let translate = match CurveTimelines::from_json_vec(json.translate) {
            Ok(t) => t,
            Err(e) => {
                return Err(e);
            },
        };
        let rotate = match CurveTimelines::from_json_vec(json.rotate) {
            Ok(t) => t,
            Err(e) => {
                return Err(e);
            },
        };
        let scale = match CurveTimelines::from_json_vec(json.scale) {
            Ok(t) => t,
            Err(e) => {
                return Err(e);
            },
        };
        Ok(BoneTimeline { translate, rotate, scale })
    }

    /// What the timelines add to the rest pose of the bone at the time `t`.
    /// A timeline that has no value then adds nothing: no translation, no
    /// rotation, the scale one.
    pub open spec fn srt_spec(&self, t: Fixed) -> SRT {
        SRT::of(
            self.scale.value_at(t).unwrap_or((Fixed { raw: ONE }, Fixed { raw: ONE })),
            self.rotate.value_at(t).unwrap_or(Fixed { raw: 0 }),
            self.translate.value_at(t).unwrap_or((Fixed { raw: 0 }, Fixed { raw: 0 })),
        )
    }

    /// evaluates the interpolations for elapsed time on all timelines and
    /// returns the corresponding srt
    pub fn srt(&self, elapsed: Fixed) -> (r: SRT)
        requires
            self.wf(),
        ensures
            r == self.srt_spec(elapsed),
            r.wf(),
    {
        let position: (Fixed, Fixed) = match self.translate.interpolate(elapsed) {
            Some(v) => v,
            None => (Fixed { raw: 0 }, Fixed { raw: 0 }),
        };
        let rotation: Fixed = match self.rotate.interpolate(elapsed) {
            Some(v) => v,
            None => Fixed { raw: 0 },
        };
        let scale: (Fixed, Fixed) = match self.scale.interpolate(elapsed) {
            Some(v) => v,
            None => (Fixed { raw: ONE }, Fixed { raw: ONE }),
        };
        SRT { scale, rotation, position, cos: rotation.cos(), sin: rotation.sin() }
    }
}

/// The names that the keyframes of an attachment timeline hold, in order.
pub open spec fn named_values(keys: Seq<CurveTimeline<Option<String>>>) -> Seq<Seq<char>>
    decreases keys.len(),
{
    if keys.len() == 0 {
        Seq::empty()
    } else {
        match keys.last().value {
            Some(name) => named_values(keys.drop_last()).push(name@),
            None => named_values(keys.drop_last()),
        }
    }
}

/// The timelines of one slot: its attachment and its colour.
pub struct SlotTimeline {
    pub attachment: CurveTimelines<Option<String>>,
    pub color: CurveTimelines<Vec<u8>>,
}

impl SlotTimeline {
    /// Whether every keyframe holds the sample table of its curve.
    pub open spec fn wf(&self) -> bool {
        &&& self.attachment.wf()
        &&& self.color.wf()
    }

    /// Whether the timelines are those that the document gives for a slot.
    pub open spec fn reads(&self, json: json::SlotTimeline) -> bool {
        &&& reads(self.attachment.timelines@, listed(json.attachment))
        &&& reads(self.color.timelines@, listed(json.color))
    }

    /// Whether every colour that the document gives for a slot can be
    /// read.
    pub open spec fn readable(json: json::SlotTimeline) -> bool {
        forall|i: int|
            0 <= i < listed(json.color).len() ==> color_of(
                (#[trigger] listed(json.color)[i]).color,
            ) is Some
    }

    pub fn from_json(json: json::SlotTimeline) -> (r: Result<SlotTimeline, SkeletonError>)
        ensures
            match r {
                Ok(timeline) => timeline.reads(json) && timeline.wf() && SlotTimeline::readable(
                    json,
                ),
                Err(e) => e is ColorDecodeError && !SlotTimeline::readable(json),
            },
    {
        let attachment = match CurveTimelines::from_json_vec(json.attachment) {
            Ok(t) => t,
            Err(e) => {
                return Err(e);
            },
        };
        let color = match CurveTimelines::from_json_vec(json.color) {
            Ok(t) => t,
            Err(e) => {
                return Err(e);
            },
        };
        assert forall|i: int| 0 <= i < listed(json.color).len() implies color_of(
            (#[trigger] listed(json.color)[i]).color,
        ) is Some by {
            assert(Some(color.timelines@[i].value.model()) == listed(json.color)[i].value_spec());
        }
        Ok(SlotTimeline { attachment, color })
    }

    /// The colour of the slot at the time `t`: opaque white where the
    /// colour timeline has no value.
    pub open spec fn color_at(&self, t: Fixed) -> Seq<u8> {
        self.color.value_at(t).unwrap_or(white())
    }

    pub fn interpolate_color(&self, elapsed: Fixed) -> (r: Vec<u8>)
        requires
            self.wf(),
        ensures
            r@ == self.color_at(elapsed),
    {
        match self.color.interpolate(elapsed) {
            Some(c) => c,
            None => {
                let c: Vec<u8> = vec![255, 255, 255, 255];
                assert(c@ =~= white());
                c
            },
        }
    }

    /// The attachment of the slot at the time `t`: none where the
    /// attachment timeline has no value, and else the name that the
    /// timeline holds then, or that it holds no name.
    pub open spec fn attachment_at(&self, t: Fixed) -> Option<Option<Seq<char>>> {
        self.attachment.value_at(t)
    }

    pub fn interpolate_attachment(&self, elapsed: Fixed) -> (r: Option<Option<String>>)
        requires
            self.wf(),
        ensures
            match r {
                Some(name) => self.attachment_at(elapsed) == Some(name_model(name)),
                None => self.attachment_at(elapsed) is None,
            },
    {
        self.attachment.interpolate(elapsed)
    }

    /// The names that the keyframes of the attachment timeline hold, in
    /// the order of the keyframes.
    pub fn get_attachment_names(&self) -> (r: Vec<&str>)
        ensures
            r@.len() == named_values(self.attachment.timelines@).len(),
            forall|i: int|
                0 <= i < r@.len() ==> (#[trigger] r@[i])@ == named_values(
                    self.attachment.timelines@,
                )[i],
    {
        let mut names: Vec<&str> = Vec::new();
        let mut i: usize = 0;
        while i < self.attachment.timelines.len()
            invariant
                i <= self.attachment.timelines.len(),
                names@.len() == named_values(self.attachment.timelines@.subrange(0, i as int)).len(),
                forall|k: int|
                    0 <= k < names@.len() ==> (#[trigger] names@[k])@ == named_values(
                        self.attachment.timelines@.subrange(0, i as int),
                    )[k],
            decreases self.attachment.timelines.len() - i,
        {
            proof {
                let keys = self.attachment.timelines@;
                assert(keys.subrange(0, i + 1).drop_last() == keys.subrange(0, i as int));
            }
            match &self.attachment.timelines[i].value {
                Some(name) => {
                    names.push(name.as_str());
                },
                None => {},
            }
            i += 1;
        }
        assert(self.attachment.timelines@.subrange(0, i as int) == self.attachment.timelines@);
        names
    }
}

impl CurveTimelines<Option<String>> {
    /// What an attachment timeline holds at a time is what one of its
    /// keyframes holds.
    pub proof fn lemma_value_of_a_keyframe(&self, t: Fixed)
        requires
            self.value_at(t) is Some,
        ensures
            exists|k: int|
                0 <= k < self.timelines@.len() && self.value_at(t) == Some(
                    name_model(#[trigger] self.timelines@[k].value),
                ),
    {
        let keys = self.timelines@;
        lemma_first_after(keys, t.raw as int, 1);
        let j = first_after(keys, t.raw as int, 1);
        if j < keys.len() {
            assert(self.value_at(t) == Some(name_model(keys[j - 1].value)));
        } else {
            assert(self.value_at(t) == Some(name_model(keys[keys.len() - 1].value)));
        }
    }
}

/// Every name that a keyframe holds is among the names of the keyframes.
pub proof fn lemma_named_values_hold(keys: Seq<CurveTimeline<Option<String>>>, k: int)
    requires
        0 <= k < keys.len(),
        keys[k].value is Some,
    ensures
        exists|j: int|
            0 <= j < named_values(keys).len() && #[trigger] named_values(keys)[j]
                == keys[k].value->0@,
    decreases keys.len(),
{
    let rest = named_values(keys.drop_last());
    if k == keys.len() - 1 {
        let j = rest.len() as int;
        assert(named_values(keys)[j] == keys[k].value->0@);
    } else {
        lemma_named_values_hold(keys.drop_last(), k);
        let j = choose|j: int|
            0 <= j < rest.len() && #[trigger] rest[j] == keys.drop_last()[k].value->0@;
        assert(named_values(keys)[j] == keys[k].value->0@);
    }
}

} // verus!
