use augur_gui::analysis_runs::AnalysisDialog;
use augur_gui::binary64::{Real32, Real64};
use augur_gui::dataset_cache::HostDatasetCacheEntry;
use augur_gui::external_tools::ExternalToolStatus;
use augur_gui::hotpixel::BuiltInHotpixelDetection;
use augur_gui::inspection_3d::{Investigation3dOutput, Investigation3dState, Position3};
use augur_gui::investigation::InvestigationState;
use augur_gui::live_state::{bridge_failed, start_failed, LiveState, StartFailure};
use augur_gui::panels::{
    analysis_menu_offered, apply_3d_output, config_loaded, config_not_saved, plugin_card,
    plugins_reloaded, status_signs, LoadedConfig,
};
use augur_gui::plugins::{PluginInput, PluginRecord};
use augur_gui::registry::ResolvedHostViewRegistry;
use augur_gui::replay::{AppMode, ReplayCommand, ReplayState};
use augur_gui::rows::StableRowKey;
use augur_gui::session::{CameraIdentity, Status};
use augur_gui::settings::{
    GlobalSettingsConfig, PendingChanges, ReplayDisplaySettings, RuntimeSettings,
};
use augur_gui::text_map::TextMap;
use augur_gui::viewer::{maybe_auto_seek_to_row, time_surface_index};

fn at(x: f32, y: f32, z: f32) -> Position3 {
    let number = |value: f32| Real32::from_bits(value.to_bits());
    Position3 { x: number(x), y: number(y), z: number(z) }
}

fn record(name: &str, loaded: bool, enabled: bool, dependencies: &[&str]) -> PluginRecord {
    PluginRecord {
        name: name.into(),
        loaded,
        enabled,
        input: PluginInput::FrameOnly,
        retained_event_history: false,
        dependencies: dependencies.iter().map(|name| name.to_string()).collect(),
    }
}

fn global() -> GlobalSettingsConfig {
    GlobalSettingsConfig {
        nm_per_pixel: Real64::from_bits(0.5f64.to_bits()),
        sensor_width: 0,
        sensor_height: 720,
        acq_time_ms: 0,
        event_store_budget_mib: 2,
        preview_interval_ms: 1,
        point_cloud_interval_ms: 100,
        disk_writer_buffer_mib: 0,
    }
}

fn settings() -> RuntimeSettings {
    RuntimeSettings {
        nm_per_pixel: Real64::from_bits(4860.0f64.to_bits()),
        sensor_width: 1280,
        sensor_height: 720,
        acq_time_ms: 33,
        preview_interval_ms: 33,
        point_cloud_interval_ms: 67,
        disk_writer_buffer_mib: 4,
        event_store_budget_bytes: 1,
    }
}

#[test]
fn picked_points_are_selected_and_focused() {
    let mut state = InvestigationState::default();
    let mut camera = Investigation3dState::default();
    let target = at(1.0, 2.0, 3.0);
    let output = Investigation3dOutput {
        selected: Some(StableRowKey::new("points", "a")),
        hovered: Some(StableRowKey::new("points", "b")),
        focus_target: Some(target),
    };
    let row = apply_3d_output(&mut state, &mut camera, output).unwrap();
    assert_eq!(row, StableRowKey::new("points", "a"));
    assert_eq!(state.primary_selection(), Some(&row));
    assert_eq!(state.hovered_row, Some(StableRowKey::new("points", "b")));
    assert_eq!(camera.target, target);
    let nothing = apply_3d_output(&mut state, &mut camera, Investigation3dOutput::default());
    assert!(nothing.is_none());
    assert_eq!(state.primary_selection(), Some(&row));
    assert!(state.hovered_row.is_none());
}

#[test]
fn plugins_that_run_have_cards() {
    let registry = ResolvedHostViewRegistry::empty();
    let names = vec!["A".to_string()];
    let card = plugin_card(&registry, 0, &record("B", true, true, &["A", "C"]), "frame", &names);
    let card = card.unwrap();
    assert_eq!(card.phase, "Phase: frame");
    assert_eq!(card.metrics, "Metrics: 0 datasets, 0 panel views");
    assert_eq!(card.dependencies, "Dependencies: A, C");
    assert_eq!(card.missing.as_deref(), Some("Missing dependency: C"));
    assert!(plugin_card(&registry, 0, &record("B", true, false, &[]), "frame", &names).is_none());
    let alone = plugin_card(&registry, 0, &record("B", true, true, &[]), "frame", &names).unwrap();
    assert_eq!((alone.dependencies.as_str(), alone.missing), ("Dependencies: none", None));
}

#[test]
fn menus_follow_what_is_loaded() {
    assert!(!analysis_menu_offered(false, &vec![record("A", false, true, &[])]));
    assert!(analysis_menu_offered(false, &vec![record("A", true, false, &[])]));
    assert!(analysis_menu_offered(true, &Vec::new()));
    let signs = status_signs(&ExternalToolStatus::Error("gone".into()), AppMode::Recording, true);
    assert_eq!(signs.tool.as_deref(), Some("ImageJ: Error: gone"));
    assert!(signs.recording && !signs.finished);
    let signs = status_signs(&ExternalToolStatus::Disconnected, AppMode::Replaying, true);
    assert!(signs.tool.is_none() && signs.finished && !signs.recording);
}

#[test]
fn loaded_configurations_are_taken_over() {
    let (mut runtime, mut status) = (settings(), Status::new(Some("old".into())));
    let mut pending = PendingChanges { config_dirty: true, acq_dirty: true };
    let failed =
        config_loaded(&mut runtime, &mut pending, &mut status, Err("no such file".into()));
    assert!(failed.is_none());
    assert_eq!(status.last_error.as_deref(), Some("load config failed: no such file"));
    assert_eq!(runtime.sensor_width, 1280);
    assert!(pending.config_dirty);
    let loaded = LoadedConfig { global: global(), mask_file: Some("mask.txt".into()) };
    let (published, mask_file) =
        config_loaded(&mut runtime, &mut pending, &mut status, Ok(loaded)).unwrap();
    assert_eq!(mask_file, "mask.txt");
    assert_eq!((published.sensor_width, published.acq_time_ms), (1, 1));
    assert_eq!((runtime.preview_interval_ms, runtime.disk_writer_buffer_mib), (10, 1));
    assert_eq!(runtime.nm_per_pixel, Real64::from_bits(1.0f64.to_bits()));
    assert_eq!(runtime.event_store_budget_bytes, 2 * 1024 * 1024);
    assert!(!pending.config_dirty && !pending.acq_dirty && status.last_error.is_none());
    config_not_saved(&mut status, "disk full");
    assert_eq!(status.last_error.as_deref(), Some("save config failed: disk full"));
}

#[test]
fn reloaded_plugins_clear_the_error() {
    let mut status = Status::new(Some("old".into()));
    assert!(plugins_reloaded(&mut status, Ok(())));
    assert!(status.last_error.is_none());
    assert!(!plugins_reloaded(&mut status, Err("bad plugin".into())));
    assert_eq!(status.last_error.as_deref(), Some("bad plugin"));
}

#[test]
fn running_replays_do_not_follow_rows() {
    let replay: ReplayState<u8> = ReplayState::closed();
    let cache: TextMap<HostDatasetCacheEntry> = TextMap::new();
    let command = maybe_auto_seek_to_row(
        &replay,
        AppMode::Idle,
        &ResolvedHostViewRegistry::empty(),
        &cache,
        &StableRowKey::new("points", "a"),
    );
    assert_eq!(command, ReplayCommand::Nothing);
}

#[test]
fn pixels_have_places_in_their_frame() {
    assert_eq!(time_surface_index(true, Some((3, 2)), Some(10)), Some(23));
    assert_eq!(time_surface_index(true, Some((3, 2)), Some(0)), Some(5));
    assert_eq!(time_surface_index(false, Some((3, 2)), Some(10)), None);
    assert_eq!(time_surface_index(true, None, Some(10)), None);
}

#[test]
fn dialogs_close_with_their_windows() {
    let mut dialog = AnalysisDialog::closed();
    assert!(dialog.input_path().is_none());
    dialog.input_path = Some("run.raw".into());
    assert_eq!(dialog.input_path(), Some("run.raw"));
    dialog.finish_pass(true, false);
    assert!(dialog.open);
    dialog.finish_pass(true, true);
    assert!(!dialog.open);
}

#[test]
fn changed_detections_are_marked() {
    let mut detection = BuiltInHotpixelDetection::default();
    assert!(!detection.is_dirty());
    detection.settings_changed(true);
    assert!(detection.is_dirty());
}

fn live() -> LiveState {
    let mut settings = settings();
    let global = settings.apply_global_config(&GlobalSettingsConfig {
        event_store_budget_mib: 8,
        ..global()
    });
    LiveState {
        settings,
        global,
        mask_file: "live.mask".into(),
        camera: Some(CameraIdentity { model: "EVK4".into(), serial: Some("42".into()) }),
        pending: PendingChanges { config_dirty: true, acq_dirty: true },
        saved: None,
    }
}

#[test]
fn replays_leave_no_trace_in_the_settings() {
    let mut state = live();
    let before = state.settings;
    let saved = state.save();
    let shown = ReplayDisplaySettings {
        global: GlobalSettingsConfig { sensor_width: 640, acq_time_ms: 5, ..global() },
        mask_file: "replay.mask".into(),
        notice: Some("as usual".into()),
    };
    let camera = CameraIdentity { model: "file".into(), serial: None };
    let notice = state.finish_opened_replay(shown, camera, saved);
    assert_eq!(notice.as_deref(), Some("as usual"));
    assert_eq!((state.settings.sensor_width, state.settings.acq_time_ms), (640, 5));
    assert_eq!(state.mask_file, "replay.mask");
    assert!(!state.pending.config_dirty && !state.pending.acq_dirty);
    state.restore_saved_live_state();
    assert_eq!(state.settings.sensor_width, before.sensor_width);
    assert_eq!(state.settings.acq_time_ms, before.acq_time_ms);
    assert_eq!(state.settings.event_store_budget_bytes, before.event_store_budget_bytes);
    assert_eq!(state.mask_file, "live.mask");
    assert_eq!(state.camera.as_ref().map(|camera| camera.model.as_str()), Some("EVK4"));
    assert!(state.saved.is_none());
    state.restore_saved_live_state();
    assert_eq!(state.mask_file, "live.mask");
}

#[test]
fn started_cameras_have_nothing_pending() {
    let mut state = live();
    state.pipeline_started(CameraIdentity { model: "other".into(), serial: None });
    assert!(!state.pending.config_dirty && !state.pending.acq_dirty);
    assert_eq!(state.global.event_store_budget_mib, 8);
}

#[test]
fn failures_to_start_are_told() {
    let told = |failure: StartFailure| {
        let mut status = Status::new(None);
        start_failed(&mut status, &failure);
        status.last_error.unwrap()
    };
    let error = || "E".to_string();
    let directory = StartFailure::OutputDirectory { directory: "out".into(), error: error() };
    assert_eq!(told(directory), "failed creating output directory out: E");
    assert_eq!(told(StartFailure::OpenCamera(error())), "open camera failed: E");
    assert_eq!(told(StartFailure::OpenReplay(error())), "open replay file failed: E");
    assert_eq!(told(StartFailure::StartPipeline(error())), "pipeline start failed: E");
    assert_eq!(told(StartFailure::Seek(error())), "seek failed: E");
    assert_eq!(told(StartFailure::SeekPipeline(error())), "seek pipeline start failed: E");
    assert_eq!(told(StartFailure::PathMissing), "replay path is missing");
    assert_eq!(told(StartFailure::MetadataMissing), "replay file metadata is missing");
    let mut status = Status::new(None);
    bridge_failed(&mut status, "ImageJ", "E");
    assert_eq!(status.last_error.as_deref(), Some("ImageJ bridge failed: E"));
}
