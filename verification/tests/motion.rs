use compositor_overlay::motion::{
    Curve, Motion, Opacity, OpacityEase, OpacitySegment, Piece,
};
use compositor_overlay::number::{Double, Single};

fn seconds(value: f64) -> Double {
    Double {
        bits: value.to_bits(),
    }
}

fn opacity(value: f32) -> Single {
    Single {
        bits: value.to_bits(),
    }
}

fn segment(
    start_s: f64,
    end_s: f64,
    start_value: f32,
    end_value: f32,
    ease: OpacityEase,
) -> OpacitySegment {
    OpacitySegment {
        start_s: seconds(start_s),
        end_s: seconds(end_s),
        start_value: opacity(start_value),
        end_value: opacity(end_value),
        ease,
    }
}

fn breath() -> Vec<OpacitySegment> {
    vec![
        segment(0.0, 0.5, 0.2, 1.0, OpacityEase::Smooth),
        segment(0.5, 1.0, 1.0, 1.0, OpacityEase::Hold),
        segment(1.0, 1.5, 1.0, 0.2, OpacityEase::Smooth),
    ]
}

fn curve(from: f32, to: f32, start_s: f64, end_s: f64) -> Curve {
    Curve {
        from: opacity(from),
        to: opacity(to),
        start_s: seconds(start_s),
        end_s: seconds(end_s),
    }
}

const DOUBLES: [f64; 17] = [
    0.0,
    -0.0,
    1.0,
    -1.0,
    0.5,
    2.0,
    1.0000000000000002,
    5e-324,
    -5e-324,
    2.2250738585072014e-308,
    2.225073858507201e-308,
    1.7976931348623157e308,
    -1.7976931348623157e308,
    f64::INFINITY,
    f64::NEG_INFINITY,
    f64::NAN,
    -0.25,
];

#[test]
fn seconds_compare_as_numbers() {
    for a in DOUBLES {
        assert_eq!(seconds(a).at_most_zero(), a <= 0.0, "{a} <= 0");
        for b in DOUBLES {
            assert_eq!(seconds(a).less(seconds(b)), a < b, "{a} < {b}");
            assert_eq!(seconds(a).at_most(seconds(b)), a <= b, "{a} <= {b}");
            assert_eq!(a < b, b - a > 0.0, "{a} to {b}");
        }
    }
}

#[test]
fn opacities_compare_as_numbers() {
    let values: [f32; 10] = [
        0.0,
        -0.0,
        1.0,
        -1.0,
        0.1,
        1.0000001,
        1e-45,
        f32::INFINITY,
        f32::NEG_INFINITY,
        f32::NAN,
    ];
    for a in values {
        for b in values {
            assert_eq!(opacity(a).equals(opacity(b)), a == b, "{a} == {b}");
        }
    }
}

#[test]
fn time_passes_from_the_start_of_a_motion_and_never_back() {
    let fade = Motion::Fade {
        from: opacity(0.0),
        to: opacity(1.0),
        started_ns: 100,
        duration_s: seconds(1.0),
    };
    assert_eq!(fade.elapsed(350), 250);
    assert_eq!(fade.elapsed(100), 0);
    assert_eq!(fade.elapsed(99), 0, "a clock before the start");
    assert_eq!(Motion::Hold(opacity(1.0)).elapsed(99), 0);
    let cycle = Motion::Breathe {
        started_ns: 1,
        segments: breath(),
    };
    assert_eq!(cycle.elapsed(u128::MAX), u128::MAX - 1);
}

#[test]
fn a_held_value_shows_at_any_time() {
    let hold = Motion::Hold(opacity(0.75));
    assert_eq!(hold.cycle(), None);
    for at in DOUBLES {
        assert_eq!(hold.value_at(seconds(at)), Opacity::Known(opacity(0.75)));
    }
}

#[test]
fn a_fade_is_on_its_curve_until_its_time_is_up() {
    let fade = Motion::Fade {
        from: opacity(0.25),
        to: opacity(1.0),
        started_ns: 0,
        duration_s: seconds(2.0),
    };
    assert_eq!(fade.cycle(), None);
    assert_eq!(
        fade.value_at(seconds(0.5)),
        Opacity::OnCurve {
            curve: curve(0.25, 1.0, 0.0, 2.0),
            at_s: seconds(0.5)
        }
    );
    assert_eq!(fade.value_at(seconds(2.0)), Opacity::Known(opacity(1.0)));
    assert_eq!(fade.value_at(seconds(7.0)), Opacity::Known(opacity(1.0)));
}

#[test]
fn a_fade_without_time_is_at_its_target() {
    for duration in [0.0, -0.0, -1.0] {
        let fade = Motion::Fade {
            from: opacity(0.25),
            to: opacity(1.0),
            started_ns: 0,
            duration_s: seconds(duration),
        };
        assert_eq!(fade.value_at(seconds(0.0)), Opacity::Known(opacity(1.0)));
    }
}

#[test]
fn a_cycle_shows_the_first_segment_that_has_not_ended() {
    let cycle = Motion::Breathe {
        started_ns: 0,
        segments: breath(),
    };
    assert_eq!(cycle.cycle(), Some(seconds(1.5)));
    assert_eq!(
        cycle.value_at(seconds(0.25)),
        Opacity::OnCurve {
            curve: curve(0.2, 1.0, 0.0, 0.5),
            at_s: seconds(0.25)
        }
    );
    assert_eq!(
        cycle.value_at(seconds(0.5)),
        Opacity::Known(opacity(1.0)),
        "a segment ends before its end"
    );
    assert_eq!(
        cycle.value_at(seconds(1.25)),
        Opacity::OnCurve {
            curve: curve(1.0, 0.2, 1.0, 1.5),
            at_s: seconds(1.25)
        }
    );
    assert_eq!(
        cycle.value_at(seconds(f64::NAN)),
        Opacity::OnCurve {
            curve: curve(1.0, 0.2, 1.0, 1.5),
            at_s: seconds(f64::NAN)
        },
        "the last segment where none is left"
    );
}

#[test]
fn a_cycle_without_time_or_segments_does_not_repeat() {
    let empty = Motion::Breathe {
        started_ns: 0,
        segments: vec![],
    };
    assert_eq!(empty.cycle(), None);
    assert_eq!(empty.value_at(seconds(1.0)), Opacity::Known(opacity(0.0)));
    let instant = Motion::Breathe {
        started_ns: 0,
        segments: vec![segment(0.0, 0.0, 0.1, 0.9, OpacityEase::Smooth)],
    };
    assert_eq!(instant.cycle(), None);
    assert_eq!(instant.value_at(seconds(1.0)), Opacity::Known(opacity(0.9)));
}

#[test]
fn only_a_smooth_segment_that_takes_time_eases() {
    assert_eq!(
        segment(1.0, 3.0, 0.1, 0.9, OpacityEase::Smooth).piece(),
        Piece::Eased(curve(0.1, 0.9, 1.0, 3.0))
    );
    let flat = Piece::Flat {
        start_s: seconds(1.0),
        value: opacity(0.9),
    };
    assert_eq!(segment(1.0, 3.0, 0.1, 0.9, OpacityEase::Hold).piece(), flat);
    assert_eq!(segment(1.0, 1.0, 0.1, 0.9, OpacityEase::Smooth).piece(), flat);
    assert_eq!(segment(1.0, 0.5, 0.1, 0.9, OpacityEase::Smooth).piece(), flat);
}
