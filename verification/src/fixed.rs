//! Fixed-point numbers.
//!
//! Every quantity of the skeleton (times, lengths, scales, angles) is a
//! [`Fixed`]: a signed count of millionths held in an `i64`. Arithmetic is
//! total: a result that does not fit is held at the nearest bound of `i64`,
//! and quotients are rounded down.
use vstd::prelude::*;

verus! {

/// The raw value of the number one.
pub const ONE: i64 = 1_000_000;

/// The raw value of a quarter turn, in radians.
pub const QUARTER_TURN: i64 = 1_570_796;

/// The raw value of a half turn, in radians: twice a quarter turn.
pub const HALF_TURN: i64 = 3_141_592;

/// The raw value of a full turn, in radians: four quarter turns.
pub const FULL_TURN: i64 = 6_283_184;

/// The raw value of ninety degrees.
pub const RIGHT_ANGLE_DEGREES: i64 = 90_000_000;

/// The raw value of a hundred and eighty degrees.
pub const STRAIGHT_ANGLE_DEGREES: i64 = 180_000_000;

/// A fixed-point number with six decimal places.
#[derive(Clone, Copy, Debug, PartialEq, Eq, Structural)]
pub struct Fixed {
    pub raw: i64,
}

/// `v` held within the range of `i64`.
pub open spec fn saturate(v: int) -> int {
    if v < i64::MIN as int {
        i64::MIN as int
    } else if v > i64::MAX as int {
        i64::MAX as int
    } else {
        v
    }
}

/// The product of two raw values, as a raw value.
pub open spec fn product(a: int, b: int) -> int {
    saturate(a * b / (ONE as int))
}

/// The raw value that lies the fraction `p` of the way from `a` to `b`.
pub open spec fn blend(a: int, b: int, p: int) -> int {
    saturate(a + p * (b - a) / (ONE as int))
}

/// How far `t` lies between `t0` and `t1`, as a raw fraction of one.
pub open spec fn fraction(t: int, t0: int, t1: int) -> int {
    (t - t0) * (ONE as int) / (t1 - t0)
}

/// An angle given in degrees, in radians.
pub open spec fn radians(degrees: int) -> int {
    degrees * (QUARTER_TURN as int) / (RIGHT_ANGLE_DEGREES as int)
}

/// The angle that differs from `a` by a multiple of twice `half` and lies
/// above `-half` and at or below `half`.
pub open spec fn wrap(a: int, half: int) -> int {
    half - (half - a) % (2 * half)
}

/// The angle that lies the fraction `p` of the way from `a` to `b`, going
/// round the shorter way: the difference counts modulo a full turn, as an
/// angle above minus a half turn and at or below a half turn.
pub open spec fn turn_blend(a: int, b: int, p: int) -> int {
    saturate(a + p * wrap(b - a, HALF_TURN as int) / (ONE as int))
}

/// The sine of an angle `r` of the first quadrant, `0 <= r <= QUARTER_TURN`:
/// the series of the sine up to the eleventh power, in Horner's form, each
/// quotient rounded down.
pub open spec fn quadrant_sine(r: int) -> int {
    let one = ONE as int;
    let z = r * r / one;
    let t1 = one - z / 110;
    let t2 = one - (z * t1 / one) / 72;
    let t3 = one - (z * t2 / one) / 42;
    let t4 = one - (z * t3 / one) / 20;
    let t5 = one - (z * t4 / one) / 6;
    let v = r * t5 / one;
    if v > one {
        one
    } else {
        v
    }
}

/// The sine of an angle in radians.
pub open spec fn sine(a: int) -> int {
    let m = a % (FULL_TURN as int);
    let q = m / (QUARTER_TURN as int);
    let r = m % (QUARTER_TURN as int);
    if q == 0 {
        quadrant_sine(r)
    } else if q == 1 {
        quadrant_sine(QUARTER_TURN as int - r)
    } else if q == 2 {
        -quadrant_sine(r)
    } else {
        -quadrant_sine(QUARTER_TURN as int - r)
    }
}

/// The cosine of an angle in radians: the sine a quarter turn further.
pub open spec fn cosine(a: int) -> int {
    sine(a + QUARTER_TURN as int)
}

/// The byte that lies the fraction `p` of the way from the byte `a` to the
/// byte `b`, rounded down and held within the range of a byte.
pub open spec fn byte_blend(a: u8, b: u8, p: int) -> u8 {
    let v = a + p * (b - a) / (ONE as int);
    if v < 0 {
        0u8
    } else if v > 255 {
        255u8
    } else {
        v as u8
    }
}

proof fn lemma_product_bound(a: int, b: int, ba: int, bb: int)
    by (nonlinear_arith)
    requires
        -ba <= a <= ba,
        -bb <= b <= bb,
    ensures
        -(ba * bb) <= a * b <= ba * bb,
{
}

proof fn lemma_product_nonneg_bound(a: int, b: int, ba: int, bb: int)
    by (nonlinear_arith)
    requires
        0 <= a <= ba,
        0 <= b <= bb,
    ensures
        0 <= a * b <= ba * bb,
{
}

/// What floor division gives for a negative numerator, by way of the
/// non-negative `-(n + 1)`.
proof fn lemma_floor_of_negative(n: int, d: int)
    requires
        n < 0,
        d > 0,
    ensures
        n / d == -((-(n + 1)) / d) - 1,
        n % d == d - 1 - (-(n + 1)) % d,
{
    let a = -(n + 1);
    let k = a / d;
    let m = a % d;
    vstd::arithmetic::div_mod::lemma_fundamental_div_mod(a, d);
    vstd::arithmetic::div_mod::lemma_mod_bound(a, d);
    assert(n == (-k - 1) * d + (d - 1 - m)) by (nonlinear_arith)
        requires
            a == d * k + m,
            a == -(n + 1),
    ;
    vstd::arithmetic::div_mod::lemma_fundamental_div_mod_converse(n, d, -k - 1, d - 1 - m);
}

/// `n / d`, rounded down.
fn floor_div(n: i128, d: i128) -> (q: i128)
    requires
        d > 0,
    ensures
        q as int == n as int / d as int,
{
    if n >= 0 {
        n / d
    } else {
        proof {
            lemma_floor_of_negative(n as int, d as int);
            vstd::arithmetic::div_mod::lemma_div_pos_is_pos(-(n + 1) as int, d as int);
            vstd::arithmetic::div_mod::lemma_div_is_ordered_by_denominator(-(n + 1) as int, 1, d as int);
        }
        let k: i128 = (-(n + 1)) / d;
        -k - 1
    }
}

/// `n % d`, in `0..d`.
fn floor_mod(n: i128, d: i128) -> (m: i128)
    requires
        d > 0,
    ensures
        m as int == n as int % d as int,
        0 <= m < d,
{
    if n >= 0 {
        proof {
            vstd::arithmetic::div_mod::lemma_mod_bound(n as int, d as int);
        }
        n % d
    } else {
        proof {
            lemma_floor_of_negative(n as int, d as int);
            vstd::arithmetic::div_mod::lemma_mod_bound(-(n + 1) as int, d as int);
        }
        let m: i128 = (-(n + 1)) % d;
        d - 1 - m
    }
}

fn saturated(v: i128) -> (r: i64)
    ensures
        r as int == saturate(v as int),
{
    if v < i64::MIN as i128 {
        i64::MIN
    } else if v > i64::MAX as i128 {
        i64::MAX
    } else {
        v as i64
    }
}

fn quadrant_sine_of(r: i64) -> (s: i64)
    requires
        0 <= r <= QUARTER_TURN,
    ensures
        s as int == quadrant_sine(r as int),
        0 <= s <= ONE,
{
    proof {
        lemma_product_nonneg_bound(r as int, r as int, QUARTER_TURN as int, QUARTER_TURN as int);
    }
    let z: i64 = r * r / ONE;
    assert(0 <= z <= 2_467_401);
    let t1: i64 = ONE - z / 110;
    proof {
        lemma_product_nonneg_bound(z as int, t1 as int, 2_467_401, ONE as int);
    }
    let t2: i64 = ONE - (z * t1 / ONE) / 72;
    proof {
        lemma_product_nonneg_bound(z as int, t2 as int, 2_467_401, ONE as int);
    }
    let t3: i64 = ONE - (z * t2 / ONE) / 42;
    proof {
        lemma_product_nonneg_bound(z as int, t3 as int, 2_467_401, ONE as int);
    }
    let t4: i64 = ONE - (z * t3 / ONE) / 20;
    proof {
        lemma_product_nonneg_bound(z as int, t4 as int, 2_467_401, ONE as int);
    }
    let t5: i64 = ONE - (z * t4 / ONE) / 6;
    proof {
        lemma_product_nonneg_bound(r as int, t5 as int, QUARTER_TURN as int, ONE as int);
    }
    let v: i64 = r * t5 / ONE;
    if v > ONE {
        ONE
    } else {
        v
    }
}

fn sine_of(a: i128) -> (s: i64)
    ensures
        s as int == sine(a as int),
        -ONE <= s <= ONE,
{
    let m: i128 = floor_mod(a, FULL_TURN as i128);
    let q: i128 = m / (QUARTER_TURN as i128);
    let r: i64 = (m % (QUARTER_TURN as i128)) as i64;
    if q == 0 {
        quadrant_sine_of(r)
    } else if q == 1 {
        quadrant_sine_of(QUARTER_TURN - r)
    } else if q == 2 {
        -quadrant_sine_of(r)
    } else {
        -quadrant_sine_of(QUARTER_TURN - r)
    }
}

impl Fixed {
    /// The sum, held within range.
    pub open spec fn plus_spec(self, other: Fixed) -> Fixed {
        Fixed { raw: saturate(self.raw + other.raw) as i64 }
    }

    /// The difference, held within range.
    pub open spec fn minus_spec(self, other: Fixed) -> Fixed {
        Fixed { raw: saturate(self.raw - other.raw) as i64 }
    }

    /// The number with the opposite sign, held within range.
    pub open spec fn negated_spec(self) -> Fixed {
        Fixed { raw: saturate(-self.raw) as i64 }
    }

    /// Half the number, rounded down.
    pub open spec fn halved_spec(self) -> Fixed {
        Fixed { raw: (self.raw / 2) as i64 }
    }

    /// The product, rounded down and held within range.
    pub open spec fn times_spec(self, other: Fixed) -> Fixed {
        Fixed { raw: product(self.raw as int, other.raw as int) as i64 }
    }

    /// The number that lies the fraction `percent` of the way from `self` to
    /// `next`.
    pub open spec fn lerp_spec(self, next: Fixed, percent: Fixed) -> Fixed {
        Fixed { raw: blend(self.raw as int, next.raw as int, percent.raw as int) as i64 }
    }

    /// The angle that lies the fraction `percent` of the way from `self` to
    /// `next`, going round the shorter way.
    pub open spec fn lerp_angle_spec(self, next: Fixed, percent: Fixed) -> Fixed {
        Fixed { raw: turn_blend(self.raw as int, next.raw as int, percent.raw as int) as i64 }
    }

    /// The angle in radians, of an angle given in degrees.
    pub open spec fn to_radians_spec(self) -> Fixed {
        Fixed { raw: radians(self.raw as int) as i64 }
    }

    /// The same angle up to whole turns, above `-half` and at or below
    /// `half`.
    pub open spec fn wrapped_spec(self, half: Fixed) -> Fixed {
        Fixed { raw: wrap(self.raw as int, half.raw as int) as i64 }
    }

    /// The sine of the angle, which is in radians.
    pub open spec fn sin_spec(self) -> Fixed {
        Fixed { raw: sine(self.raw as int) as i64 }
    }

    /// The cosine of the angle, which is in radians.
    pub open spec fn cos_spec(self) -> Fixed {
        Fixed { raw: cosine(self.raw as int) as i64 }
    }

    /// The number whose raw value is `raw`.
    pub fn new(raw: i64) -> (r: Fixed)
        ensures
            r.raw == raw,
    {
        Fixed { raw }
    }

    /// The whole number `n`.
    pub fn from_int(n: i32) -> (r: Fixed)
        ensures
            r.raw == n * ONE,
    {
        Fixed { raw: (n as i64) * ONE }
    }

    /// The sum, held within range.
    #[verifier::when_used_as_spec(plus_spec)]
    pub fn plus(self, other: Fixed) -> (r: Fixed)
        ensures
            r == self.plus_spec(other),
    {
        Fixed { raw: saturated(self.raw as i128 + other.raw as i128) }
    }

    /// The difference, held within range.
    #[verifier::when_used_as_spec(minus_spec)]
    pub fn minus(self, other: Fixed) -> (r: Fixed)
        ensures
            r == self.minus_spec(other),
    {
        Fixed { raw: saturated(self.raw as i128 - other.raw as i128) }
    }

    /// The number with the opposite sign, held within range.
    #[verifier::when_used_as_spec(negated_spec)]
    pub fn negated(self) -> (r: Fixed)
        ensures
            r == self.negated_spec(),
    {
        Fixed { raw: saturated(-(self.raw as i128)) }
    }

    /// Half the number, rounded down.
    #[verifier::when_used_as_spec(halved_spec)]
    pub fn halved(self) -> (r: Fixed)
        ensures
            r == self.halved_spec(),
    {
        Fixed { raw: floor_div(self.raw as i128, 2) as i64 }
    }

    /// The product, rounded down and held within range.
    #[verifier::when_used_as_spec(times_spec)]
    pub fn times(self, other: Fixed) -> (r: Fixed)
        ensures
            r == self.times_spec(other),
    {
        proof {
            lemma_product_bound(
                self.raw as int,
                other.raw as int,
                0x8000_0000_0000_0000,
                0x8000_0000_0000_0000,
            );
        }
        let wide: i128 = (self.raw as i128) * (other.raw as i128);
        Fixed { raw: saturated(floor_div(wide, ONE as i128)) }
    }

    /// The number that lies the fraction `percent` of the way from `self` to
    /// `next`.
    #[verifier::when_used_as_spec(lerp_spec)]
    pub fn lerp(self, next: Fixed, percent: Fixed) -> (r: Fixed)
        ensures
            r == self.lerp_spec(next, percent),
    {
        let span: i128 = next.raw as i128 - self.raw as i128;
        proof {
            lemma_product_bound(
                percent.raw as int,
                span as int,
                0x8000_0000_0000_0000,
                0xffff_ffff_ffff_ffff,
            );
        }
        let step: i128 = floor_div((percent.raw as i128) * span, ONE as i128);
        Fixed { raw: saturated(self.raw as i128 + step) }
    }

    /// The angle that lies the fraction `percent` of the way from `self` to
    /// `next`, going round the shorter way. Angles are in radians.
    #[verifier::when_used_as_spec(lerp_angle_spec)]
    pub fn lerp_angle(self, next: Fixed, percent: Fixed) -> (r: Fixed)
        ensures
            r == self.lerp_angle_spec(next, percent),
    {
        let m: i128 = floor_mod(
            HALF_TURN as i128 - (next.raw as i128 - self.raw as i128),
            FULL_TURN as i128,
        );
        let span: i128 = HALF_TURN as i128 - m;
        proof {
            lemma_product_bound(
                percent.raw as int,
                span as int,
                0x8000_0000_0000_0000,
                0xffff_ffff_ffff_ffff,
            );
        }
        let step: i128 = floor_div((percent.raw as i128) * span, ONE as i128);
        Fixed { raw: saturated(self.raw as i128 + step) }
    }

    /// The byte that lies the fraction `percent` of the way from `a` to `b`.
    pub fn lerp_byte(a: u8, b: u8, percent: Fixed) -> (r: u8)
        ensures
            r == byte_blend(a, b, percent.raw as int),
    {
        let span: i128 = b as i128 - a as i128;
        proof {
            lemma_product_bound(percent.raw as int, span as int, 0x8000_0000_0000_0000, 255);
        }
        let v: i128 = a as i128 + floor_div((percent.raw as i128) * span, ONE as i128);
        if v < 0 {
            0
        } else if v > 255 {
            255
        } else {
            v as u8
        }
    }

    /// How far `t` lies between `t0` and `t1`, as a fraction of one.
    pub fn fraction(t: Fixed, t0: Fixed, t1: Fixed) -> (r: Fixed)
        requires
            t0.raw <= t.raw < t1.raw,
        ensures
            r.raw == fraction(t.raw as int, t0.raw as int, t1.raw as int),
            0 <= r.raw < ONE,
    {
        let run: i128 = t.raw as i128 - t0.raw as i128;
        let span: i128 = t1.raw as i128 - t0.raw as i128;
        proof {
            lemma_fraction_below_one(run as int, span as int);
        }
        Fixed { raw: floor_div(run * (ONE as i128), span) as i64 }
    }

    /// The angle in radians, of an angle given in degrees.
    #[verifier::when_used_as_spec(to_radians_spec)]
    pub fn to_radians(self) -> (r: Fixed)
        ensures
            r == self.to_radians_spec(),
    {
        proof {
            lemma_radians_in_range(self.raw as int);
        }
        let wide: i128 = (self.raw as i128) * (QUARTER_TURN as i128);
        Fixed { raw: floor_div(wide, RIGHT_ANGLE_DEGREES as i128) as i64 }
    }

    /// The same angle up to whole turns, above `-half` and at or below
    /// `half`, where `half` is a half turn in the unit of the angle.
    #[verifier::when_used_as_spec(wrapped_spec)]
    pub fn wrapped(self, half: Fixed) -> (r: Fixed)
        requires
            0 < half.raw <= i64::MAX / 2,
        ensures
            r == self.wrapped_spec(half),
            -half.raw < r.raw <= half.raw,
    {
        let m: i128 = floor_mod(half.raw as i128 - self.raw as i128, 2 * (half.raw as i128));
        Fixed { raw: (half.raw as i128 - m) as i64 }
    }

    /// The sine of the angle, which is in radians.
    #[verifier::when_used_as_spec(sin_spec)]
    pub fn sin(self) -> (r: Fixed)
        ensures
            r == self.sin_spec(),
            -ONE <= r.raw <= ONE,
    {
        Fixed { raw: sine_of(self.raw as i128) }
    }

    /// The cosine of the angle, which is in radians.
    #[verifier::when_used_as_spec(cos_spec)]
    pub fn cos(self) -> (r: Fixed)
        ensures
            r == self.cos_spec(),
            -ONE <= r.raw <= ONE,
    {
        Fixed { raw: sine_of(self.raw as i128 + QUARTER_TURN as i128) }
    }
}

proof fn lemma_fraction_below_one(run: int, span: int)
    by (nonlinear_arith)
    requires
        0 <= run < span,
    ensures
        0 <= run * 1_000_000 / span < 1_000_000,
{
}

proof fn lemma_radians_in_range(d: int)
    ensures
        d >= 0 ==> 0 <= d * 1_570_796 / 90_000_000 <= d,
        d < 0 ==> d <= d * 1_570_796 / 90_000_000 < 0,
{
}

proof fn lemma_scaled_within(p: int, w: int)
    by (nonlinear_arith)
    requires
        0 <= p <= 1_000_000,
    ensures
        w >= 0 ==> 0 <= p * w / 1_000_000 <= w,
        w < 0 ==> w <= p * w / 1_000_000 <= 0,
{
}

/// A blend starts at its first value and, unless that is out of range,
/// ends at its second; in between it lies between the two.
pub proof fn lemma_blend_between(a: int, b: int, p: int)
    requires
        i64::MIN <= a <= i64::MAX,
        i64::MIN <= b <= i64::MAX,
        0 <= p <= ONE,
    ensures
        blend(a, b, 0) == a,
        blend(a, b, ONE as int) == b,
        a <= b ==> a <= blend(a, b, p) <= b,
        b <= a ==> b <= blend(a, b, p) <= a,
{
    lemma_scaled_within(p, b - a);
    lemma_scaled_within(0, b - a);
    lemma_scaled_within(ONE as int, b - a);
    assert(1_000_000 * (b - a) / 1_000_000 == b - a);
    assert(0 * (b - a) == 0) by (nonlinear_arith);
}

/// A blend of bytes starts at its first byte and ends at its second.
pub proof fn lemma_byte_blend_ends(a: u8, b: u8)
    ensures
        byte_blend(a, b, 0) == a,
        byte_blend(a, b, ONE as int) == b,
{
    assert(0 * (b - a) == 0) by (nonlinear_arith);
    assert(1_000_000 * (b - a) / 1_000_000 == b - a);
}

/// A wrapped angle lies above minus a half turn and at or below a half
/// turn, differs from the angle by whole turns, and is the angle itself
/// where that lies within this range already.
pub proof fn lemma_wrap(a: int, half: int)
    requires
        half > 0,
    ensures
        -half < wrap(a, half) <= half,
        (wrap(a, half) - a) % (2 * half) == 0,
        -half < a <= half ==> wrap(a, half) == a,
{
    let m = (half - a) % (2 * half);
    let q = (half - a) / (2 * half);
    vstd::arithmetic::div_mod::lemma_fundamental_div_mod(half - a, 2 * half);
    vstd::arithmetic::div_mod::lemma_mod_bound(half - a, 2 * half);
    assert(wrap(a, half) - a == q * (2 * half)) by (nonlinear_arith)
        requires
            half - a == (2 * half) * q + m,
            wrap(a, half) == half - m,
    ;
    vstd::arithmetic::div_mod::lemma_fundamental_div_mod_converse(
        wrap(a, half) - a,
        2 * half,
        q,
        0,
    );
    if -half < a <= half {
        vstd::arithmetic::div_mod::lemma_small_mod((half - a) as nat, (2 * half) as nat);
    }
}

/// Between two angles the blend goes round the shorter way: it never
/// leaves the first angle by more than a half turn, it starts there, and,
/// unless that is out of range, it ends at the second angle up to whole
/// turns.
pub proof fn lemma_turn_blend_short_way(a: int, b: int, p: int)
    requires
        i64::MIN <= a <= i64::MAX,
        0 <= p <= ONE,
    ensures
        -HALF_TURN <= turn_blend(a, b, p) - a <= HALF_TURN,
        turn_blend(a, b, 0) == a,
        i64::MIN <= a + wrap(b - a, HALF_TURN as int) <= i64::MAX ==> (turn_blend(
            a,
            b,
            ONE as int,
        ) - b) % (FULL_TURN as int) == 0,
{
    let w = wrap(b - a, HALF_TURN as int);
    lemma_wrap(b - a, HALF_TURN as int);
    lemma_scaled_within(p, w);
    assert(0 * w == 0) by (nonlinear_arith);
    assert(1_000_000 * w / 1_000_000 == w);
    if i64::MIN <= a + w <= i64::MAX {
        assert(turn_blend(a, b, ONE as int) == a + w);
        assert(a + w - b == w - (b - a));
    }
}

/// The sine of no turn is zero and its cosine is one; the sine of a
/// quarter turn is one and its cosine is zero.
pub proof fn lemma_sine_of_quarter_turns()
    ensures
        sine(0) == 0,
        cosine(0) == ONE,
        sine(QUARTER_TURN as int) == ONE,
        cosine(QUARTER_TURN as int) == 0,
{
    assert(quadrant_sine(0) == 0) by {
        assert(0int * 0int / 1_000_000 == 0);
    }
    assert(quadrant_sine(QUARTER_TURN as int) == ONE) by {
        let r = 1_570_796int;
        assert(r * r == 2_467_400_073_616) by (nonlinear_arith)
            requires
                r == 1_570_796,
        ;
        let z = 2_467_400int;
        assert(r * r / 1_000_000 == z);
        let t1 = 1_000_000 - z / 110;
        assert(t1 == 977_570);
        assert(z * t1 == 2_412_056_218_000) by (nonlinear_arith)
            requires
                z == 2_467_400,
                t1 == 977_570,
        ;
        let t2 = 1_000_000 - (z * t1 / 1_000_000) / 72;
        assert(t2 == 966_500);
        assert(z * t2 == 2_384_742_100_000) by (nonlinear_arith)
            requires
                z == 2_467_400,
                t2 == 966_500,
        ;
        let t3 = 1_000_000 - (z * t2 / 1_000_000) / 42;
        assert(t3 == 943_221);
        assert(z * t3 == 2_327_303_495_400) by (nonlinear_arith)
            requires
                z == 2_467_400,
                t3 == 943_221,
        ;
        let t4 = 1_000_000 - (z * t3 / 1_000_000) / 20;
        assert(t4 == 883_635);
        assert(z * t4 == 2_180_280_999_000) by (nonlinear_arith)
            requires
                z == 2_467_400,
                t4 == 883_635,
        ;
        let t5 = 1_000_000 - (z * t4 / 1_000_000) / 6;
        assert(t5 == 636_620);
        assert(r * t5 == 1_000_000_149_520) by (nonlinear_arith)
            requires
                r == 1_570_796,
                t5 == 636_620,
        ;
    }
}

/// The sine and the cosine of an angle are those of the angle a full turn
/// further.
pub proof fn lemma_sine_of_full_turn(a: int)
    ensures
        sine(a + FULL_TURN) == sine(a),
        cosine(a + FULL_TURN) == cosine(a),
{
    vstd::arithmetic::div_mod::lemma_mod_add_multiples_vanish(a, FULL_TURN as int);
    vstd::arithmetic::div_mod::lemma_mod_add_multiples_vanish(
        a + QUARTER_TURN,
        FULL_TURN as int,
    );
}

/// The product with one is the number itself, and the product with zero is
/// zero.
pub proof fn lemma_times_one(a: Fixed)
    ensures
        a.times(Fixed { raw: ONE }) == a,
        (Fixed { raw: ONE }).times(a) == a,
        a.times(Fixed { raw: 0 }) == (Fixed { raw: 0 }),
        (Fixed { raw: 0 }).times(a) == (Fixed { raw: 0 }),
{
    assert(a.raw * ONE / (ONE as int) == a.raw) by (nonlinear_arith);
    assert(ONE * a.raw / (ONE as int) == a.raw) by (nonlinear_arith);
    assert(a.raw * 0 / (ONE as int) == 0) by (nonlinear_arith);
    assert(0 * a.raw / (ONE as int) == 0) by (nonlinear_arith);
}

/// The sine and the cosine of any angle lie between minus one and one.
pub proof fn lemma_sine_in_range(a: int)
    ensures
        -ONE <= sine(a) <= ONE,
        -ONE <= cosine(a) <= ONE,
{
    let r = (a % (FULL_TURN as int)) % (QUARTER_TURN as int);
    lemma_quadrant_sine_bounds(r);
    lemma_quadrant_sine_bounds(QUARTER_TURN - r);
    let s = ((a + QUARTER_TURN) % (FULL_TURN as int)) % (QUARTER_TURN as int);
    lemma_quadrant_sine_bounds(s);
    lemma_quadrant_sine_bounds(QUARTER_TURN - s);
}

proof fn lemma_quadrant_sine_bounds(r: int)
    requires
        0 <= r <= QUARTER_TURN,
    ensures
        0 <= quadrant_sine(r) <= ONE,
{
    let one = ONE as int;
    lemma_product_nonneg_bound(r, r, QUARTER_TURN as int, QUARTER_TURN as int);
    let z = r * r / one;
    let t1 = one - z / 110;
    lemma_product_nonneg_bound(z, t1, 2_467_401, one);
    let t2 = one - (z * t1 / one) / 72;
    lemma_product_nonneg_bound(z, t2, 2_467_401, one);
    let t3 = one - (z * t2 / one) / 42;
    lemma_product_nonneg_bound(z, t3, 2_467_401, one);
    let t4 = one - (z * t3 / one) / 20;
    lemma_product_nonneg_bound(z, t4, 2_467_401, one);
    let t5 = one - (z * t4 / one) / 6;
    lemma_product_nonneg_bound(r, t5, QUARTER_TURN as int, one);
}

} // verus!
