use spine::fixed::Fixed;
use spine::fixed::FULL_TURN;
use spine::fixed::HALF_TURN;
use spine::fixed::ONE;
use spine::fixed::QUARTER_TURN;

fn fx(v: f64) -> Fixed {
    Fixed::new((v * 1e6).round() as i64)
}

#[test]
fn from_int_counts_millionths() {
    assert_eq!(Fixed::from_int(3).raw, 3 * ONE);
    assert_eq!(Fixed::from_int(-2).raw, -2_000_000);
    assert_eq!(Fixed::from_int(0), Fixed::new(0));
}

#[test]
fn plus_and_minus_are_exact_within_range() {
    assert_eq!(fx(1.25).plus(fx(2.5)), fx(3.75));
    assert_eq!(fx(1.25).minus(fx(2.5)), fx(-1.25));
    assert_eq!(fx(0.5).negated(), fx(-0.5));
}

#[test]
fn plus_and_minus_hold_at_the_bounds() {
    let top = Fixed::new(i64::MAX);
    let bottom = Fixed::new(i64::MIN);
    assert_eq!(top.plus(Fixed::new(1)), top);
    assert_eq!(bottom.minus(Fixed::new(1)), bottom);
    assert_eq!(bottom.negated(), top);
    assert_eq!(top.minus(bottom), top);
}

#[test]
fn times_rounds_down() {
    assert_eq!(Fixed::new(1_500_000).times(Fixed::new(-333_333)).raw, -500_000);
    assert_eq!(Fixed::new(-1).times(Fixed::new(1)).raw, -1);
    assert_eq!(Fixed::new(1).times(Fixed::new(1)).raw, 0);
    assert_eq!(fx(1.5).times(fx(2.0)), fx(3.0));
    assert_eq!(fx(7.25).times(Fixed::new(ONE)), fx(7.25));
}

#[test]
fn times_holds_at_the_bounds() {
    let top = Fixed::new(i64::MAX);
    let bottom = Fixed::new(i64::MIN);
    assert_eq!(top.times(top), top);
    assert_eq!(top.times(bottom), bottom);
    assert_eq!(bottom.times(bottom), top);
}

#[test]
fn halved_rounds_down() {
    assert_eq!(Fixed::new(10_000_000).halved().raw, 5_000_000);
    assert_eq!(Fixed::new(3).halved().raw, 1);
    assert_eq!(Fixed::new(-3).halved().raw, -2);
}

#[test]
fn lerp_goes_from_first_to_second() {
    let a = fx(1.0);
    let b = fx(3.0);
    assert_eq!(a.lerp(b, fx(0.0)), a);
    assert_eq!(a.lerp(b, fx(1.0)), b);
    assert_eq!(a.lerp(b, fx(0.25)), fx(1.5));
    assert_eq!(Fixed::new(5).lerp(Fixed::new(-5), Fixed::new(333_333)).raw, 1);
}

#[test]
fn lerp_of_far_values_stays_between_them() {
    let a = Fixed::new(i64::MIN);
    let b = Fixed::new(i64::MAX);
    assert_eq!(a.lerp(b, fx(0.0)), a);
    assert_eq!(a.lerp(b, fx(1.0)), b);
    assert_eq!(a.lerp(b, fx(0.5)).raw, -1);
}

#[test]
fn lerp_byte_blends_and_stays_a_byte() {
    assert_eq!(Fixed::lerp_byte(0, 255, fx(0.5)), 127);
    assert_eq!(Fixed::lerp_byte(255, 0, fx(0.5)), 127);
    assert_eq!(Fixed::lerp_byte(10, 20, fx(0.0)), 10);
    assert_eq!(Fixed::lerp_byte(10, 20, fx(1.0)), 20);
    assert_eq!(Fixed::lerp_byte(10, 20, fx(30.0)), 255);
    assert_eq!(Fixed::lerp_byte(10, 20, fx(-30.0)), 0);
}

#[test]
fn fraction_is_the_part_of_the_span() {
    assert_eq!(Fixed::fraction(fx(0.5), fx(0.0), fx(1.0)), fx(0.5));
    assert_eq!(Fixed::fraction(fx(2.0), fx(2.0), fx(4.0)), fx(0.0));
    assert_eq!(Fixed::fraction(fx(3.0), fx(2.0), fx(5.0)).raw, 333_333);
    assert_eq!(
        Fixed::fraction(Fixed::new(i64::MAX - 1), Fixed::new(i64::MIN), Fixed::new(i64::MAX)).raw,
        999_999
    );
}

#[test]
fn to_radians_takes_quarter_turns_exactly() {
    assert_eq!(fx(90.0).to_radians().raw, QUARTER_TURN);
    assert_eq!(fx(180.0).to_radians().raw, HALF_TURN);
    assert_eq!(fx(360.0).to_radians().raw, FULL_TURN);
    assert_eq!(fx(45.0).to_radians().raw, 785_398);
    assert_eq!(fx(-30.0).to_radians().raw, -523_599);
    assert_eq!(fx(0.0).to_radians().raw, 0);
}

#[test]
fn wrapped_brings_an_angle_into_the_half_open_range() {
    let half = fx(180.0);
    assert_eq!(fx(190.0).wrapped(half), fx(-170.0));
    assert_eq!(fx(-180.0).wrapped(half), fx(180.0));
    assert_eq!(fx(180.0).wrapped(half), fx(180.0));
    assert_eq!(fx(540.0).wrapped(half), fx(180.0));
    assert_eq!(fx(-190.0).wrapped(half), fx(170.0));
    assert_eq!(fx(45.0).wrapped(half), fx(45.0));
    assert_eq!(fx(725.0).wrapped(half), fx(5.0));
}

#[test]
fn sin_and_cos_at_quarter_turns() {
    assert_eq!(Fixed::new(0).sin().raw, 0);
    assert_eq!(Fixed::new(0).cos().raw, ONE);
    assert_eq!(Fixed::new(QUARTER_TURN).sin().raw, ONE);
    assert_eq!(Fixed::new(QUARTER_TURN).cos().raw, 0);
    assert_eq!(Fixed::new(HALF_TURN).sin().raw, 0);
    assert_eq!(Fixed::new(HALF_TURN).cos().raw, -ONE);
    assert_eq!(Fixed::new(3 * QUARTER_TURN).sin().raw, -ONE);
    assert_eq!(Fixed::new(FULL_TURN).cos().raw, ONE);
    assert_eq!(Fixed::new(-QUARTER_TURN).sin().raw, -ONE);
}

#[test]
fn sin_and_cos_exact_values() {
    assert_eq!(Fixed::new(523_598).sin().raw, 499_999);
    assert_eq!(Fixed::new(1_047_197).cos().raw, 500_000);
    assert_eq!(Fixed::new(ONE).sin().raw, 841_471);
    assert_eq!(Fixed::new(ONE).cos().raw, 540_302);
    assert_eq!(Fixed::new(-ONE).sin().raw, -841_471);
    assert_eq!(Fixed::new(3 * ONE).cos().raw, -989_992);
    assert_eq!(Fixed::new(785_398).sin().raw, 707_107);
    assert_eq!(Fixed::new(785_398).cos().raw, 707_107);
}

#[test]
fn sin_and_cos_follow_the_true_functions() {
    let mut a: i64 = -20_000_000;
    while a <= 20_000_000 {
        let x = a as f64 / 1e6;
        let s = Fixed::new(a).sin().raw as f64 / 1e6;
        let c = Fixed::new(a).cos().raw as f64 / 1e6;
        // the library's full turn is a little short of the true one
        let slack = 5e-6 + 1.5e-6 * (x.abs() / 6.283184);
        assert!((s - x.sin()).abs() <= slack, "sin({}) = {}", x, s);
        assert!((c - x.cos()).abs() <= slack, "cos({}) = {}", x, c);
        assert!(-ONE <= Fixed::new(a).sin().raw && Fixed::new(a).sin().raw <= ONE);
        a += 7_919;
    }
}

#[test]
fn sin_and_cos_of_extreme_angles_stay_in_range() {
    for raw in [i64::MIN, i64::MIN + 1, i64::MAX - 1, i64::MAX] {
        let s = Fixed::new(raw).sin().raw;
        let c = Fixed::new(raw).cos().raw;
        assert!(-ONE <= s && s <= ONE);
        assert!(-ONE <= c && c <= ONE);
    }
}

#[test]
fn lerp_angle_goes_round_the_shorter_way() {
    // from 170 degrees to -170 degrees: through 180, not through 0
    let a = fx(170.0).to_radians();
    let b = fx(-170.0).to_radians();
    assert_eq!(a.raw, 2_967_059);
    assert_eq!(b.raw, -2_967_060);
    let mid = a.lerp_angle(b, fx(0.5));
    assert_eq!(mid.raw, 3_141_591);
    let end = a.lerp_angle(b, fx(1.0));
    assert_eq!(end.raw, 3_316_124);
    assert_eq!(end.raw - FULL_TURN, b.raw);
    let mut p: i64 = 0;
    while p <= ONE {
        let r = a.lerp_angle(b, Fixed::new(p));
        assert!((r.raw - a.raw).abs() <= HALF_TURN);
        assert!(r.raw >= a.raw);
        p += 12_500;
    }
}

#[test]
fn lerp_angle_is_plain_between_near_angles() {
    let a = fx(10.0).to_radians();
    let b = fx(100.0).to_radians();
    assert_eq!(a.lerp_angle(b, fx(0.0)), a);
    assert_eq!(a.lerp_angle(b, fx(1.0)), b);
    assert_eq!(a.lerp_angle(b, fx(0.5)), a.lerp(b, fx(0.5)));
}
