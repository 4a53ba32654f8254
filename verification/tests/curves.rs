use spine::fixed::Fixed;
use spine::fixed::ONE;
use spine::json::AttachmentType;
use spine::json::CurveSource;
use spine::json::TimelineCurve;
use spine::skeleton::timelines::CurveTimeline;

fn fx(v: f64) -> Fixed {
    Fixed::new((v * 1e6).round() as i64)
}

fn bezier(cx1: f64, cy1: f64, cx2: f64, cy2: f64) -> TimelineCurve {
    TimelineCurve::CurveBezier(vec![fx(cx1), fx(cy1), fx(cx2), fx(cy2)])
}

fn keyframe(curve: TimelineCurve) -> CurveTimeline<Fixed> {
    let points = CurveTimeline::<Fixed>::compute_points(&curve);
    CurveTimeline { time: fx(0.0), curve, points, value: fx(0.0) }
}

fn raws(v: &Vec<Fixed>) -> Vec<i64> {
    v.iter().map(|f| f.raw).collect()
}

#[test]
fn attachment_type_from_its_tag() {
    assert_eq!(AttachmentType::from_json("region"), Some(AttachmentType::Region));
    assert_eq!(AttachmentType::from_json("regionsequence"), Some(AttachmentType::RegionSequence));
    assert_eq!(AttachmentType::from_json("boundingbox"), Some(AttachmentType::BoundingBox));
    assert_eq!(AttachmentType::from_json("Region"), None);
    assert_eq!(AttachmentType::from_json(""), None);
}

#[test]
fn curve_from_a_tag_or_numbers() {
    assert!(matches!(
        TimelineCurve::from_json(CurveSource::Tag("linear".to_string())),
        Some(TimelineCurve::CurveLinear)
    ));
    assert!(matches!(
        TimelineCurve::from_json(CurveSource::Tag("stepped".to_string())),
        Some(TimelineCurve::CurveStepped)
    ));
    assert!(TimelineCurve::from_json(CurveSource::Tag("bezier".to_string())).is_none());
    match TimelineCurve::from_json(CurveSource::Numbers(vec![fx(0.1), fx(0.2), fx(0.3), fx(0.4)])) {
        Some(TimelineCurve::CurveBezier(p)) => {
            assert_eq!(raws(&p), vec![100_000, 200_000, 300_000, 400_000])
        }
        _ => panic!("a list of numbers is a Bezier curve"),
    }
}

#[test]
fn duplicate_keeps_the_curve() {
    let curve = bezier(0.25, 0.1, 0.25, 1.0);
    match curve.duplicate() {
        TimelineCurve::CurveBezier(p) => {
            assert_eq!(raws(&p), vec![250_000, 100_000, 250_000, 1_000_000])
        }
        _ => panic!("the copy of a Bezier curve is one"),
    }
    assert!(matches!(TimelineCurve::CurveStepped.duplicate(), TimelineCurve::CurveStepped));
    assert!(matches!(TimelineCurve::CurveLinear.duplicate(), TimelineCurve::CurveLinear));
}

#[test]
fn linear_and_stepped_curves_have_no_table() {
    assert!(CurveTimeline::<Fixed>::compute_points(&TimelineCurve::CurveLinear).is_none());
    assert!(CurveTimeline::<Fixed>::compute_points(&TimelineCurve::CurveStepped).is_none());
}

#[test]
fn bezier_without_four_numbers_has_no_table_and_is_linear() {
    let short = TimelineCurve::CurveBezier(vec![fx(0.1), fx(0.2), fx(0.3)]);
    assert!(CurveTimeline::<Fixed>::compute_points(&short).is_none());
    let key = keyframe(short);
    assert_eq!(key.get_percent(fx(0.3)), fx(0.3));
}

#[test]
fn bezier_table_exact_samples() {
    let (xs, ys) = CurveTimeline::<Fixed>::compute_points(&bezier(0.25, 0.1, 0.25, 1.0)).unwrap();
    assert_eq!(
        raws(&xs),
        vec![68_500, 128_000, 184_500, 244_000, 312_500, 396_000, 500_500, 632_000, 796_500, 1_000_000]
    );
    assert_eq!(
        raws(&ys),
        vec![52_300, 142_400, 260_100, 395_200, 537_500, 676_800, 802_900, 905_600, 974_700, 1_000_000]
    );
}

#[test]
fn bezier_table_of_the_diagonal() {
    // control numbers on the diagonal at one and two thirds: the curve is the diagonal
    let third = Fixed::new(333_333);
    let two_thirds = Fixed::new(666_667);
    let curve = TimelineCurve::CurveBezier(vec![third, third, two_thirds, two_thirds]);
    let (xs, ys) = CurveTimeline::<Fixed>::compute_points(&curve).unwrap();
    assert_eq!(raws(&xs), raws(&ys));
    for (k, x) in xs.iter().enumerate() {
        assert!((x.raw - 100_000 * (k as i64 + 1)).abs() <= 1);
    }
}

#[test]
fn bezier_control_numbers_are_held_in_the_unit_range() {
    let wide = TimelineCurve::CurveBezier(vec![fx(-3.0), fx(7.5), fx(2.0), fx(-0.5)]);
    let held = bezier(0.0, 1.0, 1.0, 0.0);
    let (wx, wy) = CurveTimeline::<Fixed>::compute_points(&wide).unwrap();
    let (hx, hy) = CurveTimeline::<Fixed>::compute_points(&held).unwrap();
    assert_eq!(raws(&wx), raws(&hx));
    assert_eq!(raws(&wy), raws(&hy));
}

#[test]
fn bezier_table_matches_the_curve_in_floating_point() {
    let (cx1, cy1, cx2, cy2) = (0.42_f64, 0.0_f64, 0.58_f64, 1.0_f64);
    let (xs, ys) = CurveTimeline::<Fixed>::compute_points(&bezier(cx1, cy1, cx2, cy2)).unwrap();
    for k in 1..=10 {
        let t = k as f64 / 10.0;
        let u = 1.0 - t;
        let x = 3.0 * u * u * t * cx1 + 3.0 * u * t * t * cx2 + t * t * t;
        let y = 3.0 * u * u * t * cy1 + 3.0 * u * t * t * cy2 + t * t * t;
        assert!((xs[k - 1].raw as f64 / 1e6 - x).abs() < 2e-6);
        assert!((ys[k - 1].raw as f64 / 1e6 - y).abs() < 2e-6);
    }
}

#[test]
fn every_curve_takes_zero_to_zero_and_one_to_one_unless_stepped() {
    let curves = vec![
        TimelineCurve::CurveLinear,
        bezier(0.25, 0.1, 0.25, 1.0),
        bezier(0.0, 0.0, 0.0, 0.0),
        bezier(1.0, 1.0, 1.0, 1.0),
        bezier(0.0, 1.0, 1.0, 0.0),
        bezier(1.0, 0.0, 0.0, 1.0),
    ];
    for curve in curves {
        let key = keyframe(curve);
        assert_eq!(key.get_percent(fx(0.0)).raw, 0);
        assert_eq!(key.get_percent(fx(1.0)).raw, ONE);
    }
    let stepped = keyframe(TimelineCurve::CurveStepped);
    assert_eq!(stepped.get_percent(fx(0.0)).raw, 0);
    assert_eq!(stepped.get_percent(fx(0.5)).raw, 0);
    assert_eq!(stepped.get_percent(fx(1.0)).raw, 0);
}

#[test]
fn linear_curve_returns_its_input() {
    let key = keyframe(TimelineCurve::CurveLinear);
    assert_eq!(key.get_percent(fx(0.3)), fx(0.3));
    assert_eq!(key.get_percent(Fixed::new(999_999)).raw, 999_999);
}

#[test]
fn bezier_percent_exact_values() {
    let key = keyframe(bezier(0.25, 0.1, 0.25, 1.0));
    assert_eq!(key.get_percent(Fixed::new(100_000)).raw, 100_000);
    assert_eq!(key.get_percent(Fixed::new(250_000)).raw, 407_664);
    assert_eq!(key.get_percent(Fixed::new(500_000)).raw, 802_296);
    assert_eq!(key.get_percent(Fixed::new(750_000)).raw, 955_167);
    assert_eq!(key.get_percent(Fixed::new(999_999)).raw, 999_999);
    // before the first sample: from the origin
    assert_eq!(key.get_percent(Fixed::new(34_250)).raw, 26_150);
    // at a sample: its y
    assert_eq!(key.get_percent(Fixed::new(68_500)).raw, 52_300);
    assert_eq!(key.get_percent(Fixed::new(796_500)).raw, 974_700);
}

#[test]
fn bezier_percent_never_falls() {
    let curves = vec![
        bezier(0.25, 0.1, 0.25, 1.0),
        bezier(0.0, 1.0, 1.0, 0.0),
        bezier(1.0, 0.0, 0.0, 1.0),
        bezier(0.0, 0.0, 1.0, 1.0),
        bezier(1.0, 1.0, 0.0, 0.0),
        bezier(0.9, 0.05, 0.95, 0.1),
    ];
    for curve in curves {
        let key = keyframe(curve);
        let mut last: i64 = 0;
        let mut p: i64 = 0;
        while p <= ONE {
            let r = key.get_percent(Fixed::new(p)).raw;
            assert!(0 <= r && r <= ONE);
            assert!(last <= r, "falls at {}", p);
            last = r;
            p += 997;
        }
    }
}
