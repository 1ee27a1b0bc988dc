use augur_gui::analysis_runs::format_seconds;
use augur_gui::arithmetic::{ceiling, floor, minus as minus_64, quotient as quotient_64};
use augur_gui::binary32::{from_real64, from_whole, rounded_at_most};
use augur_gui::binary64::{Real32, Real64};
use augur_gui::investigation::InvestigationState;
use augur_gui::places::{
    raw_event_depth_scale, raw_event_focus_volume, raw_event_point_position, sensor_y_to_world,
};
use augur_gui::raster::percentile_finite;
use augur_gui::replay_time::current_replay_byte_fraction;
use augur_gui::rows::AnalysisRoi;
use augur_gui::scene::CdEvent;
use augur_gui::settings::{
    display_rate_line, hz_to_interval_ms, interval_ms_to_hz, retained_line,
};
use augur_gui::single::{minus, negated, plus, quotient, square_root, times};
use augur_gui::viewer::{investigation_split_ratio_bounds, panes_fit, split_left_width};
use augur_gui::whole_text::{
    push_fixed, push_rounded, push_rounded_32, push_shortest, push_tenths, push_tenths_32,
};

fn r32(x: f32) -> Real32 {
    Real32::from_bits(x.to_bits())
}

fn r64(x: f64) -> Real64 {
    Real64::from_bits(x.to_bits())
}

fn f(x: Real32) -> f32 {
    f32::from_bits(x.bits)
}

const POSITIVE: [f32; 14] = [
    1.0e-45,
    3.0e-39,
    1.1754944e-38,
    1.0e-20,
    0.1,
    0.33333334,
    0.5,
    1.0,
    1.5,
    3.0,
    1000.0,
    16777215.0,
    1.0e20,
    3.4028235e38,
];

#[test]
fn whole_numbers_are_near() {
    for a in [-1.0, -0.0, 0.0, f32::INFINITY, f32::NAN].into_iter().chain(POSITIVE) {
        for most in [0u64, 3, 1_000_000] {
            assert_eq!(rounded_at_most(r32(a), most), (a.round() as u64).min(most), "{a}");
        }
    }
    for n in [0u64, 1, 16_777_217, 16_777_219, 123_456_789_123, u64::MAX] {
        assert_eq!(from_whole(n), r32(n as f32));
    }
}

fn same_32(ours: Real32, theirs: f32) -> bool {
    f(ours).is_nan() && theirs.is_nan() || ours == r32(theirs)
}

#[test]
fn operations_are_total() {
    let mut all = POSITIVE.to_vec();
    all.extend([0.0, f32::INFINITY, f32::NAN]);
    for &a in &all {
        for &b in &all {
            for (x, y) in [(a, b), (a, -b), (-a, b), (-a, -b)] {
                assert!(same_32(minus(r32(x), r32(y)), x - y), "{x} - {y}");
                assert!(same_32(quotient(r32(x), r32(y)), x / y), "{x} / {y}");
                assert!(same_32(plus(r32(x), r32(y)), x + y), "{x} + {y}");
                assert!(same_32(times(r32(x), r32(y)), x * y), "{x} * {y}");
            }
        }
        assert!(same_32(square_root(r32(a)), a.sqrt()), "root of {a}");
        assert!(same_32(square_root(r32(-a)), (-a).sqrt()), "root of -{a}");
        assert_eq!(negated(r32(a)), r32(-a));
    }
    let mut state = 12_345u32;
    for _ in 0..20_000 {
        state = state.wrapping_mul(1_664_525).wrapping_add(1_013_904_223);
        let a = f32::from_bits(state);
        state = state.wrapping_mul(1_664_525).wrapping_add(1_013_904_223);
        let near = (a.to_bits() & 0xff00_0000) ^ (state >> 8);
        for b in [f32::from_bits(state), f32::from_bits(near)] {
            assert!(same_32(minus(r32(a), r32(b)), a - b), "{a:e} - {b:e}");
            assert!(same_32(quotient(r32(a), r32(b)), a / b), "{a:e} / {b:e}");
            assert!(same_32(plus(r32(a), r32(b)), a + b), "{a:e} + {b:e}");
            assert!(same_32(times(r32(a), r32(b)), a * b), "{a:e} * {b:e}");
        }
        assert!(same_32(square_root(r32(a)), a.sqrt()), "root of {a:e}");
    }
}

fn same_64(ours: Real64, theirs: f64) -> bool {
    f64::from_bits(ours.bits).is_nan() && theirs.is_nan() || ours == r64(theirs)
}

fn check_64(a: f64, b: f64) {
    assert!(same_64(minus_64(r64(a), r64(b)), a - b), "{a:e} - {b:e}");
    assert!(same_64(quotient_64(r64(a), r64(b)), a / b), "{a:e} / {b:e}");
    assert_eq!(floor(r64(a)), a.floor() as i64, "{a:e}");
    assert_eq!(ceiling(r64(a), 8192), (a.ceil() as usize).clamp(1, 8192), "{a:e}");
}

#[test]
fn wide_numbers_are_subtracted_and_divided() {
    let some = [
        0.0,
        5.0e-324,
        1.0e-310,
        2.2250738585072014e-308,
        1.0e-20,
        0.1,
        0.5,
        1.0,
        1.5,
        2.9999999999999996,
        3.0,
        8191.5,
        1.0e15,
        9007199254740991.0,
        9223372036854775808.0,
        1.0e20,
        1.7976931348623157e308,
        f64::INFINITY,
        f64::NAN,
    ];
    for a in some {
        for b in some {
            for (x, y) in [(a, b), (a, -b), (-a, b), (-a, -b)] {
                check_64(x, y);
            }
        }
    }
    let mut state = 77u64;
    for _ in 0..20_000 {
        state = state.wrapping_mul(6_364_136_223_846_793_005).wrapping_add(1_442_695_040_888_963_407);
        let a = state;
        state = state.wrapping_mul(6_364_136_223_846_793_005).wrapping_add(1_442_695_040_888_963_407);
        let near = (a & 0xffe0_0000_0000_0000) ^ (state >> 10);
        check_64(f64::from_bits(a), f64::from_bits(state));
        check_64(f64::from_bits(a), f64::from_bits(near));
        let small = (a >> 11) as f64 / 1.0e15;
        check_64(small, (state >> 11) as f64 / 1.0e13);
    }
}

#[test]
fn numbers_are_shortened() {
    for x in [
        0.0,
        -0.0,
        0.1,
        -0.1,
        1.0e-46,
        -1.0e-40,
        1.0e39,
        -1.0e39,
        5.0e-324,
        16777217.0,
        3.402823669e38,
        f64::INFINITY,
        f64::NEG_INFINITY,
    ] {
        assert_eq!(from_real64(r64(x)), r32(x as f32), "{x}");
    }
    assert!(f(from_real64(r64(f64::NAN))).is_nan());
}

#[test]
fn heights_count_from_the_bottom() {
    let world = |height: u16, y: f64| {
        (f64::from(height.saturating_sub(1)) - y).max(0.0) as f32
    };
    for height in [0u16, 1, 2, 3, 17, 257, 720, 32769, 65535] {
        for y in [
            0.0,
            -0.0,
            0.1,
            -0.1,
            1.0,
            255.99999999999997,
            256.0,
            718.9999999999,
            -3.3e-5,
            1.0e-17,
            -1.0e-17,
            2.0e-18,
            1.0e-33,
            -1.0e-33,
            1.0e-300,
            -1.0e-300,
            5.0e-324,
            -5.0e-324,
            -4503599627370497.0,
            -9007199254740991.0,
            -1.0e19,
            -1.0e25,
            -1.0e300,
            1.0e300,
            f64::INFINITY,
            f64::NEG_INFINITY,
            f64::NAN,
        ] {
            assert_eq!(sensor_y_to_world(height, r64(y)), r32(world(height, y)), "{height} {y}");
        }
    }
}

#[test]
fn numbers_are_written_without_decimals() {
    for x in [
        0.0,
        -0.0,
        0.4,
        -0.4,
        0.5,
        1.5,
        2.5,
        -2.5,
        719.49,
        719.5,
        1.0e-300,
        4503599627370495.5,
        4503599627370496.0,
        1.0e22,
        1.0e23,
        -1.7976931348623157e308,
        5.0e-324,
        f64::INFINITY,
        f64::NEG_INFINITY,
        f64::NAN,
    ] {
        let mut text = String::from("x ");
        push_rounded(&mut text, r64(x));
        assert_eq!(text, format!("x {x:.0}"));
        text.clear();
        push_tenths(&mut text, r64(x));
        assert_eq!(text, format!("{x:.1}"));
    }
}

#[test]
fn numbers_are_written_with_one_decimal() {
    for x in [0.05, 0.15, 0.25, 0.35, -0.04, 9.95, 99.95, 1.0e15, 0.949_999_999_999_999_9] {
        let mut text = String::new();
        push_tenths(&mut text, r64(x));
        assert_eq!(text, format!("{x:.1}"));
    }
    for x in [
        0.0f32,
        -0.0,
        0.05,
        0.25,
        0.75,
        0.5,
        1.5,
        2.5,
        -39.95,
        99.5,
        16_777_215.0,
        1.0e30,
        f32::MAX,
        1.0e-45,
        f32::INFINITY,
        f32::NEG_INFINITY,
        f32::NAN,
    ] {
        let mut text = String::new();
        push_tenths_32(&mut text, r32(x));
        text.push(' ');
        push_rounded_32(&mut text, r32(x));
        assert_eq!(text, format!("{x:.1} {x:.0}"));
    }
}

#[test]
fn raw_event_point_position_flips_sensor_y_and_scales_depth_to_history_window() {
    let event = CdEvent { x: 12, y: 10, timestamp: 8_000, polarity: true };
    let point = raw_event_point_position(event, 10_000, 720, r32(100.0));
    assert_eq!(f(point.x), 12.0);
    assert_eq!(f(point.y), 709.0);
    assert!((f(point.z) + 14.4).abs() < 1e-4);
    assert_eq!(point.z, r32(-2.0 * (720.0 / 100.0)));
}

#[test]
fn the_latest_event_is_in_front() {
    let event = CdEvent { x: 0, y: 900, timestamp: 9_000, polarity: false };
    let point = raw_event_point_position(event, 8_000, 720, r32(f32::NAN));
    assert_eq!((f(point.y), f(point.z)), (0.0, 0.0));
    assert_eq!(raw_event_depth_scale(0, r32(0.5)), r32(1.0));
    assert_eq!(raw_event_depth_scale(480, r32(f32::INFINITY)), r32(0.0));
    assert_eq!(raw_event_depth_scale(480, r32(7.0)), r32(480.0 / 7.0));
}

#[test]
fn raw_event_focus_volume_uses_current_time_span() {
    let roi = AnalysisRoi {
        x_min: r64(10.0),
        x_max: r64(20.0),
        y_min: r64(30.0),
        y_max: r64(50.0),
    };
    let focus = raw_event_focus_volume(&roi, 8_000, 10_000, 720, r32(100.0));
    assert_eq!(f(focus.min.x), 10.0);
    assert_eq!(f(focus.max.x), 20.0);
    assert_eq!(f(focus.min.y), 669.0);
    assert_eq!(f(focus.max.y), 689.0);
    assert!((f(focus.min.z) + 14.4).abs() < 1e-4);
    assert_eq!(f(focus.max.z), 0.0);
    assert_eq!(focus.label, "x 10..20, y 30..50");
    assert_eq!(focus.color, [255, 221, 116, 220]);
}

#[test]
fn split_ratio_bounds_follow_the_actual_min_pane_width() {
    let (min_ratio, max_ratio) = investigation_split_ratio_bounds(r32(1_188.0), r32(280.0));
    assert!((f(min_ratio) - (280.0 / 1_188.0)).abs() < 1e-6);
    assert!((f(max_ratio) - (1.0 - (280.0 / 1_188.0))).abs() < 1e-6);
}

#[test]
fn split_ratio_bounds_collapse_to_center_when_min_panes_fill_the_width() {
    assert_eq!(
        investigation_split_ratio_bounds(r32(200.0), r32(120.0)),
        (r32(0.5), r32(0.5))
    );
    assert_eq!(investigation_split_ratio_bounds(r32(0.0), r32(120.0)), (r32(0.5), r32(0.5)));
    assert_eq!(investigation_split_ratio_bounds(r32(10.0), r32(0.0)), (r32(0.0), r32(1.0)));
}

/// The width of the left pane and the share of it after a drag.
fn left_pane(full_width: f32, split_ratio: f32, moved: f32) -> (f32, f32) {
    let usable = (full_width - 12.0).max(1.0);
    let least = 280.0f32.min((usable - 40.0).max(40.0) * 0.5);
    let share = (least / usable).clamp(0.0, 0.5);
    let left = (usable * split_ratio.clamp(share, 1.0 - share)).clamp(least, usable - least);
    let after = (left + moved).clamp(least, usable - least) / usable;
    (left, after.clamp(share, 1.0 - share))
}

#[test]
fn panes_share_the_width() {
    for full_width in [52.0f32, 80.0, 131.5, 400.0, 652.3, 1_200.0, 3_840.0] {
        assert!(panes_fit(r32(full_width)));
        for split_ratio in [0.0f32, 0.3, 0.56, 1.0] {
            for moved in [-500.0f32, -3.25, 0.0, 17.5, 900.0] {
                let (left, after) = left_pane(full_width, split_ratio, moved);
                assert_eq!(f(split_left_width(r32(full_width), r32(split_ratio))), left);
                let mut state =
                    InvestigationState { split_ratio: r32(split_ratio), ..Default::default() };
                state.drag_split(r32(full_width), r32(moved));
                assert_eq!(f(state.split_ratio), after);
            }
        }
    }
    assert!(!panes_fit(r32(40.0)) && !panes_fit(r32(f32::NAN)));
}

#[test]
fn rates_and_intervals_belong_together() {
    for interval in [0u64, 1, 7, 33, 200, 123_456_789, u64::MAX] {
        let hz = 1_000.0 / interval.max(1) as f64;
        assert_eq!(interval_ms_to_hz(interval), r64(hz));
    }
    for hz in [0.0, 2.0, 3.0, 29.97, 30.0, 49.9, 1.0e9, f64::INFINITY] {
        let interval = (1_000.0 / hz.clamp(2.0, 50.0)).round().max(1.0) as u64;
        assert_eq!(hz_to_interval_ms(r64(hz), r64(2.0), r64(50.0)), interval);
    }
    assert_eq!(hz_to_interval_ms(r64(f64::NAN), r64(2.0), r64(50.0)), 1);
    for (low, high) in [
        (0.0, 50.0),
        (-4.0, 4.0),
        (-3.0, -1.0),
        (-0.0, 0.0),
        (1.0e-300, f64::INFINITY),
        (f64::NEG_INFINITY, f64::INFINITY),
    ] {
        for hz in [-5.0, -0.0, 0.0, 1.0e-310, 3.0, 700.0, f64::INFINITY, f64::NEG_INFINITY] {
            let interval = (1_000.0 / f64::clamp(hz, low, high)).round().max(1.0) as u64;
            assert_eq!(hz_to_interval_ms(r64(hz), r64(low), r64(high)), interval);
        }
    }
    for interval in [0u64, 1, 3, 33, 50] {
        assert_eq!(
            display_rate_line(interval),
            format!(
                "Effective display rate: {:.1} Hz (auto from speed \u{d7} acq time).",
                1_000.0 / interval.max(1) as f64
            )
        );
    }
}

#[test]
fn the_share_of_the_bytes_is_at_most_one() {
    for (read, size, offset) in
        [(0u64, 10u64, 0u64), (3, 10, 1), (10, 10, 1), (123_456_789, 987_654_321, 77), (5, 4, 4)]
    {
        let total = size.saturating_sub(offset);
        let share = if total == 0 { 1.0 } else { (read as f32 / total as f32).clamp(0.0, 1.0) };
        assert_eq!(current_replay_byte_fraction(read, size, offset), r32(share));
    }
}

#[test]
fn percentiles_are_rounded_to_a_place() {
    for count in [1usize, 2, 3, 7, 101, 1000] {
        let values: Vec<Real32> = (0..count).rev().map(|i| r32(i as f32)).collect();
        for percentile in [-1.0f32, 0.0, 0.3, 12.5, 50.0, 97.3, 99.9, 100.0, 120.0, f32::NAN] {
            let last = count - 1;
            let place = ((last as f32) * percentile.clamp(0.0, 100.0) / 100.0).round() as usize;
            let expected = r32(place.min(last) as f32);
            assert_eq!(percentile_finite(&values, r32(percentile)), expected);
        }
    }
}

#[test]
fn percentiles_keep_the_listed_value() {
    for signs in 0..32u32 {
        let values: Vec<f32> = (0..7)
            .map(|i| match i {
                5 => -1.0,
                6 => 1.0,
                _ if signs >> i & 1 == 1 => -0.0,
                _ => 0.0,
            })
            .collect();
        let mut sorted = values.clone();
        sorted.sort_by(|a, b| a.partial_cmp(b).unwrap());
        let listed: Vec<Real32> = values.iter().map(|x| r32(*x)).collect();
        for percentile in [0.0f32, 20.0, 40.0, 50.0, 70.0, 90.0, 100.0] {
            let place = (6.0 * percentile / 100.0).round() as usize;
            assert_eq!(percentile_finite(&listed, r32(percentile)).bits, sorted[place].to_bits());
        }
    }
}

/// Numbers of all sizes, among them those next to a power of two or of ten.
fn many_numbers() -> Vec<f64> {
    let mut numbers = vec![
        0.0,
        -0.0,
        5.0e-324,
        f64::MIN_POSITIVE,
        f64::MAX,
        -f64::MAX,
        0.1,
        0.3,
        1.0 / 3.0,
        1.23456,
        9007199254740993.0,
        1.0e15,
        1.0e16,
        1.0e21,
        1.0e22,
        1.0e23,
        123456789012345680.0,
        1125899906842624.25,
        1125899906842624.75,
        2251799813685248.5,
        4503599627370495.5,
        562949953421312.125,
        9.5e-323,
        f64::INFINITY,
        f64::NEG_INFINITY,
        f64::NAN,
    ];
    for exponent in [-1074, -1073, -1023, -1022, -1021, -500, -60, -52, -1, 0, 1, 52, 60, 969] {
        let power = f64::from_bits(if exponent < -1022 {
            1u64 << (exponent + 1074)
        } else {
            ((exponent + 1023) as u64) << 52
        });
        for step in [-1i64, 0, 1] {
            numbers.push(f64::from_bits((power.to_bits() as i64 + step) as u64));
        }
    }
    let mut state = 0x1234_5678_9abc_def1u64;
    for _ in 0..150 {
        state = state.wrapping_mul(6364136223846793005).wrapping_add(1442695040888963407);
        numbers.push(f64::from_bits(state));
        numbers.push((state >> 40) as f64 / 1000.0);
        numbers.push((state >> 12) as f64 / 8.0);
    }
    numbers
}

#[test]
fn amounts_are_told() {
    for bytes in [0usize, 1, 52_428, 52_429, 1_048_576, 123_456_789, usize::MAX] {
        assert_eq!(
            retained_line(bytes, 3),
            format!("Retained {:.1} MiB across 3 frame(s).", bytes as f32 / 1_048_576usize as f32)
        );
    }
    for seconds in [0.0, 0.0005, 0.0015, 12.3456, 1.0e9, f64::NAN] {
        assert_eq!(format_seconds(r64(seconds)), format!("{seconds:.3} s"));
    }
}

#[test]
fn floats_have_a_shortest_text() {
    for x in many_numbers() {
        let mut text = String::from("x ");
        push_shortest(&mut text, r64(x));
        assert_eq!(text, format!("x {x}"));
        if x.is_finite() {
            assert_eq!(text[2..].parse::<f64>().map(f64::to_bits), Ok(x.to_bits()));
        }
    }
}

#[test]
fn floats_have_texts_of_any_precision() {
    for (i, x) in many_numbers().into_iter().enumerate() {
        let places = [0usize, 1, 2, 3, 7, 17, 40, 255][i % 8];
        let mut text = String::new();
        push_fixed(&mut text, r64(x), places);
        assert_eq!(text, format!("{x:.places$}"));
    }
}
