use augur_gui::binary64::Real32;
use augur_gui::inspection_3d::{
    canvas_controls, canvas_message, details_lines, focus_volume_corners, focus_volume_edges,
    footer_lines, grown_capacity, is_cut_short, layers_line, pick_candidate, prepare_scene_points, press_control,
    visible_bounds, AxisPreset, CanvasEffect, CanvasPress, Investigation3dFocusVolume,
    Investigation3dLayer, Investigation3dPoint, Investigation3dScene, Investigation3dState,
    PickCandidate, Position3, RawHistoryFooterStatus,
};
use augur_gui::rows::StableRowKey;

fn r32(x: f32) -> Real32 {
    Real32::from_bits(x.to_bits())
}

fn at(x: f32, y: f32, z: f32) -> Position3 {
    Position3 { x: r32(x), y: r32(y), z: r32(z) }
}

fn point(position: Position3, row: Option<&str>) -> Investigation3dPoint {
    Investigation3dPoint {
        position,
        color: [1, 2, 3, 255],
        size: r32(2.0),
        item_key: row.map(|row| StableRowKey::new("points", row)),
        label: "p".into(),
    }
}

fn scene() -> Investigation3dScene {
    let layer = |title: &str, visible, points| Investigation3dLayer {
        id: title.to_lowercase(),
        title: title.into(),
        visible,
        points,
    };
    Investigation3dScene {
        layers: vec![
            layer("Hidden", false, vec![point(at(-9.0, 0.0, 0.0), Some("h"))]),
            layer(
                "Shown",
                true,
                vec![point(at(1.0, 5.0, -2.0), Some("a")), point(at(4.0, -1.0, 3.0), None)],
            ),
        ],
        focus_volume: None,
    }
}

#[test]
fn bounds_hold_the_visible_points() {
    let (low, high) = visible_bounds(&scene()).unwrap();
    assert_eq!(low, at(1.0, -1.0, -2.0));
    assert_eq!(high, at(4.0, 5.0, 3.0));
    let empty = Investigation3dScene { layers: Vec::new(), focus_volume: None };
    assert!(visible_bounds(&empty).is_none());
    assert!(empty.is_empty());
    assert_eq!(scene().visible_point_count(), 2);
}

#[test]
fn hidden_points_are_no_target() {
    let hidden = StableRowKey::new("points", "h");
    assert!(scene().scene_focus_target(&hidden).is_none());
    assert_eq!(scene().scene_point_for_selection(&hidden), Some(at(-9.0, 0.0, 0.0)));
    let shown = StableRowKey::new("points", "a");
    assert_eq!(scene().scene_focus_target(&shown), Some(at(1.0, 5.0, -2.0)));
}

#[test]
fn selected_points_stand_out() {
    let shown = StableRowKey::new("points", "a");
    let points = prepare_scene_points(&scene(), Some(&shown));
    assert_eq!(points.len(), 2);
    assert!(points[0].selected && !points[1].selected);
    assert_eq!((points[1].layer, points[1].point), (1, 1));
}

#[test]
fn capacities_grow_in_powers_of_two() {
    assert_eq!(grown_capacity(256, 256), None);
    assert_eq!(grown_capacity(0, 1), Some(256));
    assert_eq!(grown_capacity(256, 257), Some(512));
    assert_eq!(grown_capacity(256, 1 << 31), Some(1 << 31));
}

#[test]
fn the_nearest_candidate_is_picked() {
    let candidate = |distance, depth| PickCandidate { distance: r32(distance), depth: r32(depth) };
    assert_eq!(pick_candidate(&Vec::new()), None);
    assert_eq!(
        pick_candidate(&vec![candidate(5.0, 0.5), candidate(2.0, 0.5), candidate(3.0, 0.5)]),
        Some(1)
    );
}

fn history(retained: Option<f32>, sample_count: usize) -> RawHistoryFooterStatus {
    RawHistoryFooterStatus {
        requested_ms: r32(100.0),
        retained_ms: retained.map(r32),
        sample_count,
        point_limit: 5_000,
    }
}

#[test]
fn volumes_have_corners_and_edges() {
    let volume = Investigation3dFocusVolume {
        min: at(0.0, 0.0, 0.0),
        max: at(1.0, 2.0, 3.0),
        label: "roi".into(),
        color: [255, 221, 116, 220],
    };
    let corners = focus_volume_corners(&volume);
    assert_eq!(corners.len(), 8);
    assert!(corners.contains(&at(1.0, 0.0, 3.0)));
    let edges = focus_volume_edges();
    assert_eq!(edges.len(), 12);
    for (a, b) in edges {
        let (p, q) = (corners[a], corners[b]);
        let changed =
            usize::from(p.x != q.x) + usize::from(p.y != q.y) + usize::from(p.z != q.z);
        assert_eq!(changed, 1);
    }
    let with_focus = Investigation3dScene { focus_volume: Some(volume), ..scene() };
    assert_eq!(
        footer_lines(&with_focus, Some(history(Some(40.0), 2))),
        vec!["Layers: 1", "Points: 2", "History: 40.0/100 ms", "Focus: roi"]
    );
    assert_eq!(layers_line(&with_focus), "Layers: 1 (Shown)");
}

#[test]
fn controls_move_the_camera() {
    let mut camera = Investigation3dState::default();
    assert_eq!(camera.preset, AxisPreset::Isometric);
    assert_eq!(AxisPreset::choices().len(), 4);
    assert_eq!(
        press_control(&mut camera, CanvasPress::Preset(AxisPreset::Xy), false, None),
        CanvasEffect::Done
    );
    assert_eq!(camera.preset, AxisPreset::Xy);
    assert_eq!(press_control(&mut camera, CanvasPress::Fit, false, None), CanvasEffect::FitToScene);
    let target = at(1.0, 2.0, 3.0);
    assert_eq!(
        press_control(&mut camera, CanvasPress::Focus, false, Some(target)),
        CanvasEffect::FocusOn(target)
    );
    camera.distance = r32(100.0);
    camera.focus_on(target);
    assert_eq!((camera.target, camera.distance), (target, r32(24.0)));
    press_control(&mut camera, CanvasPress::Reset, false, None);
    assert_eq!(camera.target, at(0.0, 0.0, 0.0));
    let controls = canvas_controls(&camera, true, None);
    assert!(!controls.fit_enabled && !controls.focus_enabled);
    assert!(canvas_message(false, true).contains("WGPU"));
    assert!(canvas_message(true, true).starts_with("No 3D data yet."));
}

#[test]
fn details_tell_what_is_kept() {
    let lines = details_lines(&scene(), Some(history(Some(40.0), 7)));
    assert_eq!(lines.len(), 4);
    assert_eq!(lines[0], "Layers: 1 (Shown)");
    assert_eq!(
        lines[1],
        "History: requested 100 ms, retained 40.0 ms from the current buffer, sample 7 / 5000 points."
    );
    assert_eq!(
        history(Some(40.0), 0).line(),
        "History: requested 100 ms, retained 40.0 ms, sample 0 / 5000 points."
    );
    assert_eq!(
        history(Some(100.0), 3).line(),
        "History: requested 100 ms, retained 100.0 ms, sample 3 / 5000 points."
    );
    assert_eq!(history(None, 0).short_line(), "History: 0.0/100 ms");
    assert_eq!(history(None, 0).span_label(), "100 ms");
    assert_eq!(history(Some(39.6), 1).span_label(), "40 ms");
}

#[test]
fn history_is_cut_short_where_less_is_kept() {
    for requested in [0.0f32, 0.5, 1.0, 100.0, f32::INFINITY, f32::NAN] {
        for retained in [None, Some(0.0f32), Some(0.99999994), Some(1.0), Some(99.99), Some(100.0)] {
            let expected = retained.unwrap_or(0.0) + f32::EPSILON < requested;
            assert_eq!(is_cut_short(r32(requested), retained.map(r32)), expected);
        }
    }
}

#[test]
fn the_camera_is_fitted_turned_and_moved() {
    let tangent = (45.0f32.to_radians() * 0.5).tan();
    let mut camera = Investigation3dState::default();
    let before = camera;
    camera.fit_to_scene(&Investigation3dScene { layers: Vec::new(), focus_volume: None }, r32(1.0));
    assert_eq!(camera, before);
    let (low, high) = visible_bounds(&scene()).unwrap();
    camera.fit_to_scene(&scene(), r32(tangent));
    let f = |x: Real32| f32::from_bits(x.bits);
    assert_eq!(f(camera.target.x), (f(low.x) + f(high.x)) * 0.5);
    assert_eq!(f(camera.target.z), (f(low.z) + f(high.z)) * 0.5);
    let sides = [f(high.x) - f(low.x), f(high.y) - f(low.y), f(high.z) - f(low.z)];
    let half = (sides[0].max(sides[1]).max(sides[2]).max(1.0) * 0.5).max(1.0);
    assert_eq!(f(camera.distance), (half / tangent * 1.15).clamp(0.25, 10_000.0));

    let (yaw, pitch) = (f(camera.yaw), f(camera.pitch));
    camera.orbit(r32(12.5), r32(-3.0));
    assert_eq!(f(camera.yaw), yaw - 12.5 * 0.01);
    assert_eq!(f(camera.pitch), (pitch + -3.0 * 0.01).clamp(-1.52, 1.52));
    camera.orbit(r32(0.0), r32(1.0e6));
    assert_eq!(f(camera.pitch), 1.52);

    let distance = f(camera.distance);
    camera.apply_zoom(r32(f32::EPSILON));
    assert_eq!(f(camera.distance), distance);
    camera.apply_zoom(r32(-40.0));
    assert_eq!(f(camera.distance), (distance * (1.0 - -40.0 * 0.0015)).clamp(0.25, 10_000.0));
    camera.apply_zoom(r32(1.0e9));
    assert_eq!(f(camera.distance), 0.25);
}
