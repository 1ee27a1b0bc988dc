use augur_gui::binary64::{Real32, Real64};
use augur_gui::external_tools::ExternalToolStatus;
use augur_gui::host_data::HostMarkerShape;
use augur_gui::hotpixel::{AnalysisSeverity, AnalysisWarning};
use augur_gui::inspection_3d::{
    Investigation3dLayer, Investigation3dPoint, Investigation3dScene, Investigation3dState,
    Position3,
};
use augur_gui::inspector::{
    apply_layer_card, host_marker_shape_label, is_raw_event_layer, layer_groups,
    render_investigation_inspector, selected_item_text, show_all_layers, warning_lines,
};
use augur_gui::investigation::{
    InvestigationLayerStyle, InvestigationLayout, InvestigationState, DEFAULT_LAYER_COLOR,
};
use augur_gui::plugins::{
    dependencies_text, enabled_plugin_names, missing_dependencies, missing_text,
    note_analysis_change, plan_event_history, plugin_run_order, plugins_need_raw_events,
    plugins_need_retained_event_history, raw_events_required, runtime_plugins_enabled,
    settle_event_history, HistoryPlan, HistorySync, PluginInput, PluginRecord,
};
use augur_gui::replay::AppMode;
use augur_gui::rows::{AnalysisRoi, RoiConfig, StableRowKey};
use augur_gui::settings::PendingChanges;
use augur_gui::viewer::{
    clipped_ui_width, handle_investigation_shortcuts, handle_viewer_output, layout_enabled,
    offers_disconnect, preview_render_failed, refresh_preview_if_needed, should_auto_fit,
    update_preview_histogram_from_frame, HistogramSource, PreviewHistogramRequest, PreviewRefresh,
    RenderFailure, RendererHistogram, ShortcutKeys, ViewerOutput, ViewerStep,
};

fn r32(x: f32) -> Real32 {
    Real32::from_bits(x.to_bits())
}

#[test]
fn clipped_ui_width_prefers_the_visible_inner_width() {
    let width = |available, clip| {
        f32::from_bits(clipped_ui_width(r32(available), r32(clip)).bits)
    };
    assert_eq!(width(380.0, 362.0), 362.0);
    assert_eq!(width(280.0, 320.0), 280.0);
    assert_eq!(width(-5.0, 320.0), 0.0);
}

fn plugin(name: &str, enabled: bool, input: PluginInput, history: bool) -> PluginRecord {
    PluginRecord {
        name: name.into(),
        loaded: true,
        enabled,
        input,
        retained_event_history: history,
        dependencies: Vec::new(),
    }
}

fn records() -> Vec<PluginRecord> {
    vec![
        plugin("derived", true, PluginInput::DerivedData, false),
        plugin("off", false, PluginInput::RawEvents, true),
        plugin("frames", true, PluginInput::FrameOnly, false),
        PluginRecord { loaded: false, ..plugin("broken", true, PluginInput::RawEvents, true) },
        plugin("events", true, PluginInput::RawEvents, false),
        plugin("more frames", true, PluginInput::FrameOnly, false),
    ]
}

#[test]
fn plugins_run_phase_by_phase() {
    assert_eq!(plugin_run_order(&records()), vec![2, 5, 4, 0]);
    assert_eq!(
        enabled_plugin_names(&records()),
        vec!["derived", "frames", "events", "more frames"]
    );
}

#[test]
fn plugins_ask_for_what_they_need() {
    let mut records = records();
    assert!(plugins_need_raw_events(&records));
    assert!(!plugins_need_retained_event_history(&records));
    assert_eq!(plan_event_history(&records, true), HistoryPlan::Drop);
    records[2].retained_event_history = true;
    assert!(plugins_need_retained_event_history(&records));
    assert_eq!(
        plan_event_history(&records, true),
        HistoryPlan::Keep { follow_pipeline: true }
    );
    let none = Vec::new();
    assert!(!runtime_plugins_enabled(&none));
    let needs = |layout, mode, prefers| raw_events_required(layout, mode, prefers, &none);
    assert!(!needs(InvestigationLayout::Preview2dOnly, false, false));
    assert!(needs(InvestigationLayout::Split2d3d, false, false));
    assert!(needs(InvestigationLayout::Preview2dOnly, true, false));
    assert!(needs(InvestigationLayout::Preview2dOnly, false, true));
}

#[test]
fn missing_dependencies_are_listed() {
    let wanted = vec!["frames".to_owned(), "tracker".to_owned(), "fit".to_owned()];
    let missing = missing_dependencies(&wanted, &enabled_plugin_names(&records()));
    assert_eq!(missing, vec!["tracker", "fit"]);
    assert_eq!(missing_text(&missing).as_deref(), Some("Missing dependency: tracker, fit"));
    assert_eq!(missing_text(&Vec::new()), None);
    assert_eq!(dependencies_text(&Vec::new()), "Dependencies: none");
    assert_eq!(dependencies_text(&wanted), "Dependencies: frames, tracker, fit");
}

#[test]
fn frames_are_added_where_the_pipeline_gave_no_events() {
    assert!(settle_event_history(HistorySync::Nothing, true).0);
    assert!(!settle_event_history(HistorySync::Synced { has_cursor: true }, true).0);
    assert!(settle_event_history(HistorySync::Synced { has_cursor: false }, true).0);
    assert!(!settle_event_history(HistorySync::Nothing, false).0);
    let (push, warning) = settle_event_history(HistorySync::Failed("gap".into()), true);
    let warning = warning.unwrap();
    assert!(push);
    assert_eq!((warning.source.as_str(), warning.message.as_str()), ("Plugin history", "gap"));
    assert_eq!(warning.severity, AnalysisSeverity::Error);
}

#[test]
fn changes_of_the_analysis_are_told() {
    let rerun = note_analysis_change(AppMode::Replaying, true, true, "analysis parameters");
    assert!(rerun.rerun);
    assert_eq!(
        rerun.notice,
        "Recomputed the current replay frame after analysis parameters."
    );
    let early = note_analysis_change(AppMode::Replaying, true, false, "x");
    assert!(!early.rerun && !early.stale);
    assert_eq!(early.notice, "x changed, but there is no decoded frame to recompute yet.");
    let live = note_analysis_change(AppMode::Recording, false, true, "x");
    assert!(!live.rerun && live.stale);
    assert!(live.notice.starts_with("x changed. Investigation outputs"));
}

fn style(title: &str) -> InvestigationLayerStyle {
    InvestigationLayerStyle {
        title: title.into(),
        visible: true,
        color: DEFAULT_LAYER_COLOR,
        marker_shape: HostMarkerShape::Cross,
        size: r32(3.0),
    }
}

fn state() -> InvestigationState {
    let mut state = InvestigationState::default();
    for (id, title) in [
        ("zeta", "Zeta"),
        ("host.raw_events.on", "ON"),
        ("alpha", "Alpha"),
        ("host.raw_events.off", "OFF"),
    ] {
        state.layer_styles.insert(id.into(), style(title));
    }
    state
}

#[test]
fn layers_are_grouped_and_sorted() {
    let groups = layer_groups(&state().layer_styles);
    assert_eq!(groups.raw.as_list(), &vec!["host.raw_events.off", "host.raw_events.on"]);
    assert_eq!(groups.analysis.as_list(), &vec!["alpha", "zeta"]);
    assert!(is_raw_event_layer("host.raw_events.on"));
    assert!(!is_raw_event_layer("host.raw_events"));
}

#[test]
fn isolated_layers_can_be_shown_again() {
    let mut state = state();
    state.isolate_layer("alpha");
    assert!(state.layer_visible("alpha", false));
    assert!(!state.layer_visible("zeta", true));
    apply_layer_card(&mut state, "alpha", style("Renamed"), true);
    assert!(state.focused_layers.is_empty());
    assert_eq!(state.layer_styles.get("alpha").unwrap().title, "Renamed");
    show_all_layers(&mut state);
    assert!(state.layer_visible("zeta", false));
    apply_layer_card(&mut state, "unknown", style("New"), false);
    assert!(state.layer_styles.get("unknown").is_none());
    assert!(!state.layer_visible("unknown", true));
}

#[test]
fn inspectors_tell_what_is_selected() {
    let mut state = state();
    let key = StableRowKey::new("data.alpha.points", "7");
    let empty = selected_item_text(None, &state.layer_styles);
    assert_eq!(empty, "Selected item: none");
    assert_eq!(
        selected_item_text(Some(&key), &state.layer_styles),
        "Selected item: Alpha row 7"
    );
    let other = StableRowKey::new("data.beta", "9");
    assert_eq!(
        selected_item_text(Some(&other), &state.layer_styles),
        "Selected item: data.beta row 9"
    );
    state.set_single_selection(key);
    state.hovered_row = Some(other);
    state.isolate_layer("zeta");
    let warnings: Vec<AnalysisWarning> = (0..8)
        .map(|n| AnalysisWarning {
            source: "S".into(),
            severity: AnalysisSeverity::Info,
            message: format!("m{n}"),
        })
        .collect();
    let pending = PendingChanges { config_dirty: true, acq_dirty: false };
    let side = |x: f64| Real64::from_bits(x.to_bits());
    state.active_analysis_roi = Some(AnalysisRoi {
        x_min: side(1.0),
        x_max: side(2.25),
        y_min: side(3.04),
        y_max: side(719.96),
    });
    let view = render_investigation_inspector(
        &state,
        AppMode::Idle,
        &pending,
        &warnings,
        Some("done"),
    );
    assert_eq!(view.layout, "Current layout: Split 2D + 3D");
    assert_eq!(view.linked_roi, "Linked ROI: x 1.0..2.2, y 3.0..720.0");
    assert_eq!(view.selected, "Selected item: Alpha row 7");
    assert_eq!(view.hovered.as_deref(), Some("Hovered row: 9"));
    assert!(view.offers_clear);
    assert_eq!(view.isolated.as_deref(), Some("Isolated: zeta"));
    assert_eq!(view.mode, "Mode: Idle");
    assert_eq!(view.pending, Some("Apply pending changes: settings"));
    assert_eq!(view.warnings.len(), 6);
    assert_eq!(view.warnings[0].text, "S: m0");
    assert_eq!(view.more_warnings.as_deref(), Some("2 more warning(s) remain."));
    assert_eq!(view.notice.as_deref(), Some("Notice: done"));
    assert!(warning_lines(&Vec::new()).is_empty());
    assert_eq!(host_marker_shape_label(HostMarkerShape::Square), "Box");
    assert_eq!(host_marker_shape_label(HostMarkerShape::Circle), "Filled circle");
}

fn nothing_done() -> ViewerOutput {
    ViewerOutput {
        needs_preview_refresh: false,
        popup_toggled: false,
        new_roi: None,
        return_from_external: false,
        mask_hotpixels_clicked: false,
        replay_toggle_pause: false,
        replay_restart: false,
        replay_stop: false,
        replay_step_frames: None,
        replay_seek_to: None,
        replay_set_speed: None,
        investigation_select_row: None,
        investigation_hover_row: None,
    }
}

#[test]
fn viewer_output_is_handled_in_order() {
    let steps = handle_viewer_output(nothing_done(), false, false, AppMode::Idle);
    assert!(matches!(steps.as_slice(), [ViewerStep::Hover(None)]));
    let output = ViewerOutput {
        needs_preview_refresh: true,
        popup_toggled: true,
        new_roi: Some(RoiConfig { x: 1, y: 2, width: 3, height: 4 }),
        replay_step_frames: Some(-2),
        investigation_select_row: Some(StableRowKey::new("d", "r")),
        ..nothing_done()
    };
    let steps = handle_viewer_output(output, false, true, AppMode::Replaying);
    assert!(matches!(
        steps.as_slice(),
        [
            ViewerStep::ClosePopup,
            ViewerStep::SetRoi { mark_dirty: false, .. },
            ViewerStep::StepFrames(-2),
            ViewerStep::SelectRow(_),
            ViewerStep::Hover(None),
            ViewerStep::RefreshPreview
        ]
    ));
}

#[test]
fn previews_are_refreshed_where_they_are_seen() {
    let refresh = |layout, mode, streaming| {
        refresh_preview_if_needed(true, layout, true, mode, streaming)
    };
    assert_eq!(
        refresh(InvestigationLayout::Split2d3d, AppMode::Previewing, false),
        PreviewRefresh { histogram: true, texture: true }
    );
    assert_eq!(
        refresh(InvestigationLayout::Split2d3d, AppMode::Previewing, true),
        PreviewRefresh { histogram: true, texture: false }
    );
    assert_eq!(
        refresh(InvestigationLayout::Inspection3dOnly, AppMode::Previewing, false),
        PreviewRefresh { histogram: false, texture: false }
    );
    let (source, notice) = update_preview_histogram_from_frame(
        PreviewHistogramRequest::Full,
        RendererHistogram::Failed("oom".into()),
        true,
    );
    assert_eq!(source, HistogramSource::Computed);
    assert!(notice.unwrap().ends_with("instead: oom"));
    let auto = |renderer, cached| {
        update_preview_histogram_from_frame(PreviewHistogramRequest::AutoContrast, renderer, cached).0
    };
    assert_eq!(auto(RendererHistogram::Computed, false), HistogramSource::Renderer);
    assert_eq!(auto(RendererHistogram::Unsupported, true), HistogramSource::Frame);
    assert_eq!(auto(RendererHistogram::Unsupported, false), HistogramSource::BrightestValue);
    assert!(matches!(
        preview_render_failed("x", true),
        RenderFailure::FallBack { notice } if notice.ends_with("fallback: x")
    ));
    assert!(matches!(
        preview_render_failed("x", false),
        RenderFailure::Fail { error } if error == "preview render failed: x"
    ));
    assert!(offers_disconnect(&ExternalToolStatus::Connecting));
    assert!(!offers_disconnect(&ExternalToolStatus::Error("x".into())));
}

fn scene(key: &StableRowKey) -> Investigation3dScene {
    Investigation3dScene {
        layers: vec![Investigation3dLayer {
            id: "alpha".into(),
            title: "Alpha".into(),
            visible: true,
            points: vec![Investigation3dPoint {
                position: Position3 { x: r32(1.0), y: r32(2.0), z: r32(3.0) },
                color: DEFAULT_LAYER_COLOR,
                size: r32(2.0),
                item_key: Some(key.copied()),
                label: "p".into(),
            }],
        }],
        focus_volume: None,
    }
}

#[test]
fn keys_change_the_investigation() {
    let key = StableRowKey::new("d", "r");
    let scene = scene(&key);
    let mut state = InvestigationState::default();
    let mut camera = Investigation3dState::default();
    assert!(should_auto_fit(&camera, &scene));
    state.set_single_selection(key);
    let roi = RoiConfig { x: 0, y: 0, width: 4, height: 4 };
    let none = ShortcutKeys {
        layout_1: false,
        layout_2: false,
        layout_3: false,
        toggle_link: false,
        clear_selection: false,
        focus_selection: false,
    };
    let mut press = |state: &mut InvestigationState, keys, gpu| {
        handle_investigation_shortcuts(state, &mut camera, keys, &scene, gpu, roi, None)
    };
    assert!(!press(&mut state, none, true).repaint);
    assert_eq!(state.split_ratio, r32(0.56));
    assert!(state.camera_focus_target.is_none());
    let focus = press(&mut state, ShortcutKeys { focus_selection: true, ..none }, true);
    assert_eq!(focus.focused.map(|p| p.x), Some(r32(1.0)));
    assert_eq!(state.camera_focus_target, focus.focused);
    let three = ShortcutKeys { layout_1: true, layout_3: true, ..none };
    assert!(press(&mut state, three, true).layout_set);
    assert_eq!(state.layout, InvestigationLayout::Inspection3dOnly);
    press(&mut state, three, false);
    assert_eq!(state.layout, InvestigationLayout::Preview2dOnly);
    press(&mut state, ShortcutKeys { toggle_link: true, ..none }, true);
    assert!(!state.link_roi_between_2d_and_3d && state.active_analysis_roi.is_none());
    press(&mut state, ShortcutKeys { toggle_link: true, ..none }, true);
    assert!(state.active_analysis_roi.is_some());
    let clear = ShortcutKeys { clear_selection: true, focus_selection: true, ..none };
    assert!(press(&mut state, clear, true).focused.is_none());
    assert!(state.primary_selection().is_none());
    assert_eq!(camera.target.y, r32(2.0));
    assert!(layout_enabled(InvestigationLayout::Preview2dOnly, false));
    assert!(!layout_enabled(InvestigationLayout::Split2d3d, false));
}
