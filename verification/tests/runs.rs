use augur_gui::analysis_runs::{
    AnalysisDialog, AnalysisPanelAction, AnalysisRunEvent, AnalysisRunState, AnalysisRunsState,
    InputFile, OfflineProgress, PluginChoice, ProbeReport, RunOutcome, RunReport, RunSummary,
    TimelineState,
};
use augur_gui::binary64::Real64;
use augur_gui::seconds::{format_us_span, seconds_to_us, us_to_seconds};

fn real64(x: f64) -> Real64 {
    Real64::from_bits(x.to_bits())
}

fn demo() -> PluginChoice {
    PluginChoice { name: "demo".into(), phase: "Frame".into(), selected: true }
}

fn dialog(plugins: Vec<PluginChoice>) -> AnalysisDialog {
    AnalysisDialog {
        open: true,
        input_path: Some("/tmp/example.csv".into()),
        timeline: TimelineState::Ready { first_us: 100, last_us: 1_100 },
        use_custom_range: true,
        start_seconds: real64(0.0),
        end_seconds: real64(0.0011),
        window_ms: 1,
        run_name: "augur test run xyzzy range".into(),
        output_parent: "/tmp".into(),
        plugins,
        error: None,
    }
}

#[test]
fn custom_range_end_at_slider_max_includes_last_event() {
    let dialog = dialog(vec![demo()]);
    let request = dialog.build_request(false, '/').expect("request");
    // end slider at file duration: the half-open end extends past the last
    // event so it is included
    assert_eq!(request.t_end_us, Some(1_101));
    assert_eq!(request.t_start_us, Some(100));
    assert_eq!(request.output_dir, "/tmp/augur_test_run_xyzzy_range");
    assert_eq!(request.selected_plugins, vec!["demo".to_owned()]);
    assert_eq!(request.acq_time_us, 1_000);
}

#[test]
fn build_request_rejects_missing_plugin_selection() {
    let dialog = AnalysisDialog {
        timeline: TimelineState::Ready { first_us: 0, last_us: 1_000 },
        use_custom_range: false,
        end_seconds: real64(0.001),
        run_name: "augur test run xyzzy plugins".into(),
        ..dialog(Vec::new())
    };
    let err = dialog.build_request(false, '/').expect_err("no plugins selected");
    assert!(err.contains("plugin"));
}

#[test]
fn requests_need_an_input_and_a_free_folder() {
    let missing = AnalysisDialog { input_path: None, ..dialog(vec![demo()]) };
    assert!(missing.build_request(false, '/').is_err());
    let taken = dialog(vec![demo()]);
    let err = taken.build_request(true, '/').expect_err("folder exists");
    assert!(err.contains("/tmp/augur_test_run_xyzzy_range"), "{err}");
    let whole = AnalysisDialog { use_custom_range: false, ..dialog(vec![demo()]) };
    let request = whole.build_request(false, '/').unwrap();
    assert_eq!((request.t_start_us, request.t_end_us), (None, None));
}

#[test]
fn seconds_agree_with_floating_point() {
    let mut x: u64 = 12345;
    for k in 0..200u32 {
        x = x.wrapping_mul(6_364_136_223_846_793_005).wrapping_add(1_442_695_040_888_963_407);
        let us = x >> (k % 64);
        assert_eq!(us_to_seconds(us).bits, (us as f64 / 1_000_000.0).to_bits(), "{us}");
        let seconds = f64::from_bits(x >> (k % 13));
        let expected = (seconds.max(0.0) * 1_000_000.0).round() as u64;
        assert_eq!(seconds_to_us(real64(seconds)), expected, "{seconds}");
    }
    for seconds in [0.0, -1.0, 0.0000005, 1.5, 1e300, f64::INFINITY, f64::NAN] {
        let expected = (seconds.max(0.0) * 1_000_000.0).round() as u64;
        assert_eq!(seconds_to_us(real64(seconds)), expected, "{seconds}");
    }
}

#[test]
fn spans_are_told_in_the_unit_that_fits() {
    assert_eq!(format_us_span(0), "0 us");
    assert_eq!(format_us_span(999), "999 us");
    assert_eq!(format_us_span(1_500), "1.5 ms");
    assert_eq!(format_us_span(2_000_000), "2.000 s");
    for us in [1_000u64, 1_049, 1_050, 1_250, 99_949, 999_950, 999_999] {
        assert_eq!(format_us_span(us), format!("{:.1} ms", us as f64 / 1_000.0));
    }
    for us in [1_000_000u64, 1_000_500, 1_001_500, 123_456_789, u64::MAX] {
        assert_eq!(format_us_span(us), format!("{:.3} s", us as f64 / 1_000_000.0));
    }
}

fn input() -> InputFile {
    InputFile {
        path: "/data/rec.raw".into(),
        name: Some("rec.raw".into()),
        parent: "/data".into(),
        timeline: Some((10, 2_000_010)),
    }
}

#[test]
fn dialogs_open_for_a_file() {
    let mut runs: AnalysisRunsState<()> = AnalysisRunsState::new();
    assert!(!runs.dialog.open && !runs.dialog.use_custom_range);
    assert_eq!(runs.dialog.window_ms, 1);
    assert!(runs.dialog.run_name.is_empty() && runs.dialog.plugins.is_empty());
    assert!(!runs.open_dialog(Some(input()), 0, vec![demo()]));
    assert!(runs.dialog.open);
    assert_eq!(runs.dialog.window_ms, 1);
    assert_eq!(runs.dialog.output_parent, "/data");
    assert!(runs.dialog.run_name.contains("rec"), "{}", runs.dialog.run_name);
    assert_eq!(f64::from_bits(runs.dialog.end_seconds.bits), 2.0);
    assert_eq!(runs.dialog.duration_seconds().map(|s| s.bits), Some(2.0f64.to_bits()));
    assert_eq!(runs.dialog.estimated_windows(), Some(2_000));
    runs.dialog.use_custom_range = true;
    runs.dialog.move_start(Real64::from_bits(0.3f64.to_bits()));
    assert_eq!(runs.dialog.estimated_windows(), Some(1_700));
    let unknown = InputFile { timeline: None, ..input() };
    assert!(runs.open_dialog(Some(unknown), 20, Vec::new()));
    assert!(runs.dialog.timeline_text().is_some());
    runs.dialog.poll_probe(ProbeReport::Failed("no events".into()));
    assert!(runs.dialog.timeline_text().unwrap().contains("no events"));
    runs.dialog.cancel_pressed();
    assert!(!runs.dialog.open);
}

#[test]
fn ranges_stay_in_order() {
    let mut runs: AnalysisRunsState<()> = AnalysisRunsState::new();
    runs.open_dialog(Some(input()), 50, vec![demo()]);
    let dialog = &mut runs.dialog;
    dialog.move_start(real64(1.5));
    dialog.move_end(real64(0.5));
    dialog.settle_range();
    let start = f64::from_bits(dialog.start_seconds.bits);
    let end = f64::from_bits(dialog.end_seconds.bits);
    assert!(0.0 <= start && start <= end && end <= 2.0, "{start}..{end}");
    dialog.start_from_playhead(500_010);
    assert_eq!(f64::from_bits(dialog.start_seconds.bits), 0.5);
    dialog.end_at_playhead(1_500_010);
    assert_eq!(f64::from_bits(dialog.end_seconds.bits), 1.5);
    assert_eq!(f64::from_bits(dialog.playhead_seconds(9_000_000).bits), 2.0);
    dialog.move_end(real64(f64::NAN));
    dialog.settle_range();
    assert!(f64::from_bits(dialog.end_seconds.bits).is_nan());
    dialog.move_start(real64(1.25));
    assert_eq!(f64::from_bits(dialog.end_seconds.bits), 1.25);
}

fn report(outcome: RunOutcome<()>) -> RunReport<()> {
    RunReport {
        progress: Some(OfflineProgress { processed_windows: 3, total_windows: 10 }),
        outcome,
    }
}

fn started() -> (AnalysisRunsState<()>, u64) {
    let mut runs: AnalysisRunsState<()> = AnalysisRunsState::new();
    runs.open_dialog(Some(input()), 50, vec![demo()]);
    let request = runs.dialog.start_pressed(false, false, '/').expect("a request");
    let id = runs.start_run(&request);
    (runs, id)
}

#[test]
fn runs_finish_and_are_listed() {
    let (mut runs, id) = started();
    assert!(runs.any_running());
    assert!(runs.poll(vec![report(RunOutcome::Pending)]).is_empty());
    let text = runs.run(id).unwrap().state_text();
    assert!(text.contains('3') && text.contains("10"), "{text}");
    let summary =
        RunSummary { processed_windows: 10, exported_files: 2, host_snapshots: () };
    let events = runs.poll(vec![report(RunOutcome::Succeeded(summary))]);
    assert_eq!(events, vec![AnalysisRunEvent::Finished { id }]);
    assert!(!runs.any_running());
    let (actions, cancel) = runs.run(id).unwrap().offered_actions();
    assert!(actions.contains(&AnalysisPanelAction::ViewResults(id)));
    assert!(!cancel);
    // A run that has ended stays as it is.
    assert!(runs.poll(vec![report(RunOutcome::Failed("late".into()))]).is_empty());
    runs.remove_run(id);
    assert!(runs.runs().is_empty());
}

#[test]
fn failed_runs_tell_why() {
    let (mut runs, id) = started();
    let events = runs.poll(vec![report(RunOutcome::Failed("disk full".into()))]);
    assert_eq!(events, vec![AnalysisRunEvent::Failed { id, error: "disk full".into() }]);
    let (mut lost, other) = started();
    let events = lost.poll(vec![report(RunOutcome::Ended)]);
    assert!(matches!(&events[0], AnalysisRunEvent::Failed { id, .. } if *id == other));
}

#[test]
fn cancelled_runs_end_without_an_error() {
    let (mut runs, id) = started();
    assert!(runs.request_cancel(id));
    let events = runs.poll(vec![report(RunOutcome::Failed("cancelled".into()))]);
    assert!(events.is_empty());
    assert!(matches!(runs.run(id).unwrap().state, AnalysisRunState::Cancelled));
    assert!(!runs.request_cancel(id));
    assert!(!runs.request_cancel(id + 7));
}

#[test]
fn running_runs_are_kept_in_the_list() {
    let (mut runs, id) = started();
    runs.remove_run(id);
    assert_eq!(runs.runs().len(), 1);
    let run = &runs.runs()[0];
    assert_eq!(run.range_label, "whole file");
    assert!(run.summary_text("rec.raw").contains("rec.raw"));
    assert!(!runs.dialog.can_start(true));
}

#[test]
fn one_run_executes_at_a_time() {
    let (mut runs, id) = started();
    assert!(runs.any_running());
    let mut dialog = dialog(vec![demo()]);
    assert!(dialog.start_pressed(runs.any_running(), false, '/').is_none());
    runs.poll(vec![report(RunOutcome::Failed("stopped".into()))]);
    assert!(!runs.any_running());
    let request = dialog.start_pressed(runs.any_running(), false, '/').unwrap();
    let second = runs.start_run(&request);
    assert!(second > id);
    let running = runs.runs().iter().filter(|run| run.is_running()).count();
    assert_eq!(running, 1);
}
