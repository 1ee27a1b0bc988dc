use augur_gui::binary64::{Real32, Real64};
use augur_gui::export_dialog::ExportDialog;
use augur_gui::naming::SplitPath;
use augur_gui::replay::{AppMode, ReplayFileInfo};
use augur_gui::rows::RoiConfig;
use augur_gui::session::{
    can_open_replay, can_start_preview, current_export_event_source, export_dialog_problem,
    open_replay_file, poll_pipeline_state, poll_tiff_stack_export_task, stamp_output_path,
    start_recording, start_tiff_stack_export, wanted_output_path, CameraIdentity,
    ExportEventSource, ExportReport, PipelineReport, PipelineStep, RecordingStart, ReplayOpening,
    Status, ViewerPlaces,
};
use augur_gui::settings::{
    load_replay_display_settings, menu_items, mib_to_bytes, replay_pipeline_config,
    settings_are_locked, settings_hint, ApplyStep, GlobalSettingsConfig, MenuState,
    PendingChanges, ReplaySidecar, RuntimeSettings, SendOutcome, UiThemePreference,
};

fn real64(x: f64) -> Real64 {
    Real64::from_bits(x.to_bits())
}

fn info() -> ReplayFileInfo {
    ReplayFileInfo {
        data_offset: 0,
        data_len: 0,
        width: 640,
        height: 480,
        first_timestamp_us: 0,
        total_duration_us: 0,
    }
}

fn defaults() -> GlobalSettingsConfig {
    GlobalSettingsConfig {
        nm_per_pixel: real64(4860.0),
        sensor_width: 1280,
        sensor_height: 720,
        acq_time_ms: 50,
        event_store_budget_mib: 64,
        preview_interval_ms: 33,
        point_cloud_interval_ms: 67,
        disk_writer_buffer_mib: 4,
    }
}

#[test]
fn replay_pipeline_config_preserves_requested_acquisition_time() {
    let config = replay_pipeline_config(&defaults(), &info(), None, 125);

    assert_eq!(config.global.acq_time_ms, 125);
    assert_eq!(config.global.sensor_width, 640);
    assert_eq!(config.global.sensor_height, 480);
    assert_eq!((config.roi_width, config.roi_height), (640, 480));
    assert_eq!(config.global.nm_per_pixel, real64(4860.0));
    let pitched = replay_pipeline_config(&defaults(), &info(), Some(real64(2000.0)), 0);
    assert_eq!(pitched.global.nm_per_pixel, real64(2000.0));
    assert_eq!(pitched.global.acq_time_ms, 1);
}

#[test]
fn settings_stay_within_their_limits() {
    let mut settings = runtime();
    let zero = GlobalSettingsConfig {
        nm_per_pixel: real64(f64::NAN),
        sensor_width: 0,
        sensor_height: 0,
        acq_time_ms: 0,
        event_store_budget_mib: 0,
        preview_interval_ms: 0,
        point_cloud_interval_ms: 0,
        disk_writer_buffer_mib: 0,
    };
    let published = settings.apply_global_config(&zero);
    assert_eq!(published.nm_per_pixel, real64(1.0));
    assert_eq!((published.sensor_width, published.sensor_height), (1, 1));
    assert_eq!(published.acq_time_ms, 1);
    assert_eq!(published.event_store_budget_mib, 1);
    assert_eq!(published.preview_interval_ms, 10);
    assert_eq!(published.point_cloud_interval_ms, 20);
    assert_eq!(published.disk_writer_buffer_mib, 1);
    assert_eq!(settings.event_store_budget_bytes, 1024 * 1024);
    let again = settings.apply_global_config(&published);
    assert!(again.equals(&published));
}

fn runtime() -> RuntimeSettings {
    let mut settings = RuntimeSettings {
        nm_per_pixel: real64(1.0),
        sensor_width: 1,
        sensor_height: 1,
        acq_time_ms: 1,
        preview_interval_ms: 10,
        point_cloud_interval_ms: 20,
        disk_writer_buffer_mib: 1,
        event_store_budget_bytes: 0,
    };
    settings.apply_global_config(&defaults());
    settings
}

#[test]
fn acquisition_times_come_from_the_running_camera() {
    let settings = runtime();
    assert_eq!(settings.published_acq_time_ms(AppMode::Recording, Some(20_999)), 20);
    assert_eq!(settings.published_acq_time_ms(AppMode::Recording, None), 50);
    assert_eq!(settings.published_acq_time_ms(AppMode::Replaying, Some(20_000)), 50);
    let speed = Real32::from_bits(2.0f32.to_bits());
    assert_eq!(settings.effective_preview_interval_ms(AppMode::Replaying, speed), 25);
    assert_eq!(settings.effective_preview_interval_ms(AppMode::Previewing, speed), 33);
}

#[test]
fn mebibytes_are_counted_in_bytes() {
    assert_eq!(mib_to_bytes(3), 3 * 1024 * 1024);
    assert_eq!(mib_to_bytes(u64::MAX), usize::MAX);
}

#[test]
fn sidecars_decide_what_is_shown() {
    let show = |sidecar| load_replay_display_settings(sidecar, &defaults(), &info(), None, 50);
    let missing = show(ReplaySidecar::Missing);
    assert_eq!(
        missing.notice.as_deref(),
        Some("No companion .toml sidecar found; showing default settings.")
    );
    assert_eq!(missing.global.sensor_width, 640);
    assert!(show(ReplaySidecar::NoName).notice.unwrap().contains("could not be derived"));
    let broken = show(ReplaySidecar::Failed { path: "a.toml".into(), error: "bad".into() });
    assert_eq!(
        broken.notice.as_deref(),
        Some("Replay sidecar a.toml could not be loaded: bad")
    );
    let usual = show(ReplaySidecar::Loaded {
        global: defaults(),
        mask_file: Some("mask.csv".into()),
    });
    assert_eq!((usual.global.sensor_width, usual.mask_file.as_str()), (640, "mask.csv"));
    let own = GlobalSettingsConfig { acq_time_ms: 9, ..defaults() };
    let kept = show(ReplaySidecar::Loaded { global: own, mask_file: None });
    assert_eq!((kept.global.sensor_width, kept.global.acq_time_ms), (1280, 9));
    assert!(kept.notice.is_none());
}

#[test]
fn copied_masks_are_unsent_while_a_camera_runs() {
    let after = |dirty, changed, mode, running| {
        let mut changes = PendingChanges { config_dirty: dirty, acq_dirty: true };
        changes.mask_copied(changed, mode, running);
        assert!(changes.acq_dirty);
        changes.config_dirty
    };
    assert!(after(false, true, AppMode::Previewing, true));
    assert!(!after(true, true, AppMode::Idle, false));
    assert!(!after(false, true, AppMode::Replaying, true));
    assert!(after(true, true, AppMode::Replaying, false));
    assert!(!after(false, false, AppMode::Recording, true));
}

#[test]
fn changes_are_applied_to_a_running_camera() {
    let dirty = PendingChanges { config_dirty: true, acq_dirty: true };
    let mut error = Some("old".to_owned());
    let mut changes = dirty;
    assert_eq!(
        changes.apply_runtime_changes(false, SendOutcome::Sent, &mut error),
        ApplyStep::NoCamera
    );
    assert_eq!(changes, dirty);
    assert_eq!(
        changes.apply_runtime_changes(true, SendOutcome::Invalid("roi".into()), &mut error),
        ApplyStep::Refused
    );
    assert_eq!(error.as_deref(), Some("settings invalid: roi"));
    assert_eq!(
        changes.apply_runtime_changes(true, SendOutcome::Unsent("full".into()), &mut error),
        ApplyStep::Refused
    );
    assert_eq!(error.as_deref(), Some("failed sending runtime settings: full"));
    assert_eq!(
        changes.label(),
        Some("Apply pending changes: settings, acquisition timing")
    );
    assert_eq!(
        changes.apply_runtime_changes(true, SendOutcome::Sent, &mut error),
        ApplyStep::Applied { write_acq_time: true }
    );
    assert_eq!((changes.label(), error), (None, None));
}

#[test]
fn menus_offer_what_can_be_done() {
    let state = MenuState {
        settings_locked: false,
        camera_known: true,
        replay_known: true,
        exporting: false,
        replay_finished: false,
    };
    let idle = menu_items(AppMode::Idle, &state);
    assert!(idle.open_replay && idle.preview && idle.record && !idle.stop && !idle.export_stack);
    let replay = menu_items(AppMode::Replaying, &state);
    assert!(replay.export_stack && replay.play_pause && replay.stop && !replay.save_config);
    let locked = MenuState { settings_locked: true, ..state };
    let recording = menu_items(AppMode::Recording, &locked);
    assert!(!recording.apply_settings && !recording.edit_acq_time && !recording.edit_output);
    assert!(settings_are_locked(AppMode::Replaying, false));
    assert!(!settings_are_locked(AppMode::Recording, false));
    assert!(settings_hint(AppMode::Recording, true).contains("locked"));
    assert!(UiThemePreference::from_dark_mode(true).is_dark());
    assert!(!UiThemePreference::from_dark_mode(false).is_dark());
}

#[test]
fn replay_files_are_told_by_their_extension() {
    let open = |extension| open_replay_file(AppMode::Idle, false, extension);
    assert!(matches!(open(Some("raw")), ReplayOpening::Raw));
    for extension in ["csv", "bin", "npy", "h5", "hdf5"] {
        assert!(matches!(open(Some(extension)), ReplayOpening::Decoded));
    }
    match open(Some("txt")) {
        ReplayOpening::Refused(text) => {
            assert_eq!(text, "unsupported replay file extension: .txt")
        }
        other => panic!("{other:?}"),
    }
    match open(None) {
        ReplayOpening::Refused(text) => assert_eq!(text, "replay file is missing an extension"),
        other => panic!("{other:?}"),
    }
    assert!(matches!(open_replay_file(AppMode::Idle, true, Some("raw")), ReplayOpening::Ignored));
    assert!(can_open_replay(AppMode::Idle, false));
    assert!(!can_open_replay(AppMode::Recording, false));
    assert!(can_start_preview(AppMode::Idle, false));
    assert_eq!(start_recording(AppMode::Recording, false), RecordingStart::Ignored);
    assert_eq!(
        start_recording(AppMode::Previewing, false),
        RecordingStart::Start { stop_preview: true }
    );
}

#[test]
fn status_lines_follow_the_session() {
    let mut status = Status::new(Some("no plugins".into()));
    assert_eq!(status.camera_status, "Camera not probed yet.");
    assert_eq!(status.last_error.as_deref(), Some("no plugins"));
    let camera = CameraIdentity { model: "EVK4".into(), serial: Some("42".into()) };
    status.probed(Ok(&camera));
    assert_eq!(status.camera_status, "Ready: EVK4 (serial 42)");
    let plain = CameraIdentity { model: "EVK4".into(), serial: None };
    status.probed(Ok(&plain));
    assert_eq!(status.camera_status, "Ready: EVK4");
    status.probed(Err("usb".into()));
    assert_eq!(status.camera_status, "Probe failed: usb");
    assert_eq!(status.last_error.as_deref(), Some("camera probe failed: usb"));
    status.started(false);
    assert_eq!(status.camera_status, "Previewing.");
    status.started(true);
    assert_eq!(status.camera_status, "Recording in progress.");
    status.replay_opening("a.csv");
    assert_eq!(status.camera_status, "Opening a.csv…");
    assert_eq!(status.replay_notice.as_deref(), Some("Opening replay..."));
    status.replay_open_failed(None);
    assert_eq!(
        status.last_error.as_deref(),
        Some("replay open worker disconnected unexpectedly")
    );
    status.replay_opened("a.csv", None);
    assert_eq!(status.camera_status, "Replaying a.csv.");
    assert!(status.last_error.is_none() && status.replay_notice.is_none());
    status.replay_finished(None);
    assert_eq!(status.camera_status, "Replay finished.");
    status.replay_reopened("a.csv");
    status.replay_finished(Some("busy".into()));
    assert_eq!(status.camera_status, "Replaying a.csv.");
    assert_eq!(status.last_error.as_deref(), Some("pipeline shutdown failed: busy"));
    status.stopped(true, None);
    assert!(status.camera_status.starts_with("Camera idle."));
    status.failed("x".into());
    assert_eq!(status.last_error.as_deref(), Some("x"));
}

#[test]
fn pipelines_stop_on_errors_and_finish_when_drained() {
    let mut status = Status::new(None);
    let step = poll_pipeline_state(
        &mut status,
        AppMode::Previewing,
        Some(PipelineReport { error: Some("lost".into()), drained: true }),
    );
    assert_eq!(step, PipelineStep::Stop);
    assert_eq!(status.last_error.as_deref(), Some("lost"));
    let drained = || Some(PipelineReport { error: None, drained: true });
    assert_eq!(
        poll_pipeline_state(&mut status, AppMode::Previewing, drained()),
        PipelineStep::Nothing
    );
    assert_eq!(
        poll_pipeline_state(&mut status, AppMode::Replaying, drained()),
        PipelineStep::FinishReplay
    );
    assert!(status.last_error.is_none());
    assert_eq!(poll_pipeline_state(&mut status, AppMode::Idle, None), PipelineStep::Nothing);
}

#[test]
fn output_paths_are_stamped_where_needed() {
    assert_eq!(wanted_output_path("  "), Err("output path must not be empty".to_owned()));
    assert_eq!(wanted_output_path(" ./out.raw "), Ok("./out.raw".to_owned()));
    let path = SplitPath {
        prefix: "./".into(),
        file_name: Some("out.raw".into()),
        tail: String::new(),
    };
    assert_eq!(stamp_output_path(&path, Some("."), false, "T", '/'), "./out.raw");
    assert_eq!(stamp_output_path(&path, Some("."), true, "T", '/'), "./out_T.raw");
    let nameless =
        |text: &str| SplitPath { prefix: text.into(), file_name: None, tail: String::new() };
    assert_eq!(stamp_output_path(&nameless(".."), Some(""), true, "S", '/'), "output_S.raw");
    assert_eq!(stamp_output_path(&nameless("/"), None, true, "S", '/'), "./output_S.raw");
    assert_eq!(stamp_output_path(&nameless("/"), None, false, "S", '/'), "/");
}

fn dialog() -> ExportDialog {
    ExportDialog::closed(RoiConfig { x: 0, y: 0, width: 4, height: 4 })
}

#[test]
fn exports_need_events() {
    let info = ReplayFileInfo { data_offset: 7, ..info() };
    assert!(matches!(
        current_export_event_source(true, None, None),
        Ok(ExportEventSource::Decoded)
    ));
    assert!(matches!(
        current_export_event_source(false, Some("a.raw"), Some(&info)),
        Ok(ExportEventSource::RawEvt3 { data_offset: 7, .. })
    ));
    let (mut dialog, mut status) = (dialog(), Status::new(None));
    let missing = current_export_event_source(false, None, Some(&info));
    assert!(start_tiff_stack_export(&mut dialog, &mut status, false, missing).is_none());
    assert_eq!(dialog.error.as_deref(), Some("replay path is missing"));
    let unknown = current_export_event_source(false, Some("a.raw"), None);
    assert!(start_tiff_stack_export(&mut dialog, &mut status, true, unknown).is_none());
    assert_eq!(status.last_error.as_deref(), Some("replay path is missing"));
    assert_eq!(
        export_dialog_problem(true, false).as_deref(),
        Some("replay file metadata is missing")
    );
    assert_eq!(export_dialog_problem(true, true), None);
    let ready = current_export_event_source(true, None, None);
    assert!(start_tiff_stack_export(&mut dialog, &mut status, false, ready).is_some());
    assert!(dialog.exporting && status.last_error.is_none());
}

#[test]
fn exports_report_their_end() {
    let (mut dialog, mut status) = (dialog(), Status::new(None));
    dialog.set_exporting(true);
    let mut poll = |report| poll_tiff_stack_export_task(&mut dialog, &mut status, "/o", report);
    assert!(poll(ExportReport::Running));
    assert!(!poll(ExportReport::Failed("full".into())));
    assert!(!poll(ExportReport::Lost));
    assert!(!poll(ExportReport::Written(3)));
    assert_eq!(dialog.info.as_deref(), Some("Exported 3 frame(s) to /o"));
    assert!(status.last_error.is_none());
    poll_tiff_stack_export_task(&mut dialog, &mut status, "/o", ExportReport::Lost);
    assert_eq!(dialog.error.as_deref(), Some("TIFF export task ended unexpectedly"));
}

#[test]
fn viewers_move_between_windows() {
    let mut places = ViewerPlaces { main: 1, popup: 0, popup_open: false };
    assert!(places.open_popup_viewer(0));
    assert!(!places.open_popup_viewer(9));
    assert_eq!(*places.with_active_viewer(), 1);
    *places.with_active_viewer_mut() = 5;
    assert!(places.close_popup_viewer(0));
    assert!(!places.close_popup_viewer(9));
    assert_eq!((places.main, places.popup), (5, 0));
}
