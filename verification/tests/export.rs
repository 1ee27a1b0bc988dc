use augur_gui::binary64::Real64;
use augur_gui::export::{
    estimate_tiff_stack_frames as estimated_pages, export_stack, roi_is_inside, StackStep,
    TiffStack, TiffStackExportParams, ValidatedExportParams,
};
use augur_gui::export_dialog::{
    roi_matches_full_frame, ExportDialog, ExportDialogAction, ReplaySpan,
};
use augur_gui::naming::SplitPath;
use augur_gui::rows::RoiConfig;
use augur_gui::scene::CdEvent;

fn params() -> TiffStackExportParams {
    TiffStackExportParams {
        acq_time_us: 50_000,
        start_us: 0,
        end_us: 100_000,
        roi: Some(RoiConfig { x: 1, y: 1, width: 2, height: 2 }),
        output_path: "/tmp/decoded_roi_stack.tiff".into(),
        width: 4,
        height: 3,
    }
}

fn events() -> Vec<CdEvent> {
    vec![
        CdEvent { x: 2, y: 2, timestamp: 20_000, polarity: true },
        CdEvent { x: 1, y: 1, timestamp: 60_000, polarity: false },
    ]
}

#[test]
fn decoded_export_writes_multi_page_roi_tiff() {
    let validated = ValidatedExportParams::new(&params(), None).unwrap();
    assert_eq!((validated.output_width, validated.output_height), (2, 2));
    let pages = export_stack(&events(), validated);

    assert_eq!(pages.len(), 2);
    assert_eq!(pages[0], vec![0, 0, 0, 1]);
    assert_eq!(pages[1], vec![1, 0, 0, 0]);
}

#[test]
fn pages_are_written_as_they_fill() {
    let validated = ValidatedExportParams::new(&params(), None).unwrap();
    let mut stack = TiffStack::new(validated);
    let mut pages = Vec::new();
    for event in events() {
        loop {
            match stack.process_event(event) {
                StackStep::WriteFrame => {
                    pages.push(stack.page());
                    stack.frame_written();
                }
                StackStep::NextEvent | StackStep::Finished => break,
            }
        }
    }
    while stack.frame_pending() {
        pages.push(stack.page());
        stack.frame_written();
    }
    assert_eq!(pages, export_stack(&events(), validated));
    assert_eq!(stack.frames_written(), pages.len());
    assert_eq!(pages.len(), estimated_pages(0, 100_000, 50_000));
}

#[test]
fn pages_count_the_events_of_their_windows() {
    let validated = ValidatedExportParams::new(
        &TiffStackExportParams {
            acq_time_us: 7,
            start_us: 10,
            end_us: 30,
            roi: None,
            width: 3,
            height: 2,
            ..params()
        },
        None,
    )
    .unwrap();
    let events: Vec<CdEvent> = (0..400u32)
        .map(|i| CdEvent {
            x: (i % 4) as u16,
            y: (i / 5 % 3) as u16,
            timestamp: u64::from(i / 10),
            polarity: i % 3 == 0,
        })
        .collect();
    let pages = export_stack(&events, validated);
    assert_eq!(pages.len(), 3);
    assert_eq!(pages.len(), estimated_pages(10, 30, 7));
    for (k, page) in pages.iter().enumerate() {
        let (from, until) = (10 + 7 * k as u64, (17 + 7 * k as u64).min(30));
        for y in 0..2u16 {
            for x in 0..3u16 {
                let count = events
                    .iter()
                    .filter(|e| e.x == x && e.y == y)
                    .filter(|e| from <= e.timestamp && e.timestamp < until)
                    .count();
                assert_eq!(usize::from(page[usize::from(y) * 3 + usize::from(x)]), count);
            }
        }
    }
    let bright = vec![CdEvent { x: 0, y: 0, timestamp: 11, polarity: true }; 70_000];
    assert_eq!(export_stack(&bright, validated)[0][0], 65_535);
}

#[test]
fn senseless_exports_are_refused() {
    let message = |p: TiffStackExportParams, problem: Option<&str>| {
        ValidatedExportParams::new(&p, problem).expect_err("refused")
    };
    assert_eq!(
        message(TiffStackExportParams { acq_time_us: 0, ..params() }, None),
        "acquisition time must be > 0"
    );
    assert_eq!(
        message(TiffStackExportParams { width: 0, roi: None, ..params() }, None),
        "export dimensions must be > 0"
    );
    let empty = message(TiffStackExportParams { end_us: 0, ..params() }, None);
    assert!(empty.contains("end"), "{empty}");
    let outside = message(params(), Some("out of bounds"));
    assert!(outside.contains("out of bounds"), "{outside}");
    assert!(roi_is_inside(RoiConfig { x: 1, y: 1, width: 3, height: 2 }, 4, 3));
    assert!(!roi_is_inside(RoiConfig { x: 2, y: 1, width: 3, height: 2 }, 4, 3));
}

fn full() -> RoiConfig {
    RoiConfig { x: 0, y: 0, width: 4, height: 4 }
}

fn dialog_for(output_path: &str) -> ExportDialog {
    ExportDialog {
        output_path: output_path.to_owned(),
        end_seconds: Real64::from_bits(1.0f64.to_bits()),
        width: 4,
        height: 4,
        ..ExportDialog::closed(full())
    }
}

fn split(prefix: &str, name: &str) -> SplitPath {
    SplitPath { prefix: prefix.into(), file_name: Some(name.into()), tail: String::new() }
}

#[test]
fn params_name_the_file_that_will_actually_be_written() {
    // The exporter forces a .tiff extension, so the overwrite check and the
    // confirmation text must see the same resolved path, not the stem the
    // user typed.
    let params = dialog_for("/tmp/stack")
        .build_export_params(&split("/tmp/", "stack"))
        .expect("params build");
    assert_eq!(params.output_path, "/tmp/stack.tiff");

    let params = dialog_for("/tmp/stack.tif")
        .build_export_params(&split("/tmp/", "stack.tif"))
        .expect("params build");
    assert_eq!(params.output_path, "/tmp/stack.tif");
}

#[test]
fn a_hand_typed_path_starts_unconfirmed_for_overwriting() {
    let dialog = dialog_for("/tmp/stack.tiff");
    assert!(!dialog.overwrite_confirmed);
    assert!(dialog.pending_overwrite.is_none());
}

#[test]
fn exports_need_a_path_and_a_span() {
    let blank = dialog_for("   ");
    let nowhere = SplitPath { prefix: String::new(), file_name: None, tail: String::new() };
    assert_eq!(
        blank.build_export_params(&nowhere).expect_err("no path"),
        "choose an output path"
    );
    let mut backwards = dialog_for("/tmp/a.tiff");
    backwards.start_seconds = backwards.end_seconds;
    assert_eq!(
        backwards.build_export_params(&split("/tmp/", "a.tiff")).expect_err("no span"),
        "end time must be greater than start time"
    );
}

#[test]
fn existing_files_are_asked_about() {
    let path = split("/tmp/", "stack.tiff");
    let mut dialog = dialog_for("/tmp/stack.tiff");
    assert!(dialog.export_pressed(&path, true).is_none());
    assert!(dialog.overwrite_question().unwrap().contains("/tmp/stack.tiff"));
    dialog.keep_pressed();
    assert!(dialog.overwrite_question().is_none());
    assert!(dialog.export_pressed(&path, true).is_none());
    match dialog.overwrite_pressed() {
        Some(ExportDialogAction::Export(params)) => {
            assert_eq!(params.output_path, "/tmp/stack.tiff")
        }
        other => panic!("{other:?}"),
    }
    dialog.path_edited("/tmp/other.tiff".into());
    assert!(!dialog.overwrite_confirmed);
    dialog.path_picked("/tmp/picked.tiff".into());
    assert!(dialog.overwrite_confirmed);
    assert!(matches!(
        dialog.export_pressed(&split("/tmp/", "picked.tiff"), true),
        Some(ExportDialogAction::Export(_))
    ));
}

#[test]
fn dialogs_cover_the_replay() {
    let mut dialog = ExportDialog::closed(full());
    let span = ReplaySpan {
        first_timestamp_us: 5,
        total_duration_us: 2_000_000,
        width: 4,
        height: 4,
    };
    dialog.open_for_replay(&split("/data/", "rec.raw"), '/', span, 50, full());
    assert!(dialog.open);
    assert_eq!(f64::from_bits(dialog.end_seconds.bits), 2.0);
    assert_eq!(dialog.estimated_frames(), 40);
    assert!(dialog.output_path.starts_with("/data/rec"), "{}", dialog.output_path);
    dialog.move_start(Real64::from_bits(9.0f64.to_bits()));
    dialog.settle();
    assert!(f64::from_bits(dialog.start_seconds.bits) <= f64::from_bits(dialog.end_seconds.bits));
    dialog.end_seconds = Real64::from_bits(f64::NAN.to_bits());
    dialog.settle();
    assert!(f64::from_bits(dialog.end_seconds.bits).is_nan());
    dialog.move_start(Real64::from_bits(1.5f64.to_bits()));
    assert_eq!(f64::from_bits(dialog.end_seconds.bits), 1.5);
    dialog.set_exporting(true);
    dialog.finish_success(7, "/tmp/x.tiff");
    assert_eq!(dialog.info.as_deref(), Some("Exported 7 frame(s) to /tmp/x.tiff"));
    dialog.finish_error("disk full".into());
    assert_eq!(dialog.error.as_deref(), Some("disk full"));
    assert!(roi_matches_full_frame(full(), 4, 4));
    assert!(!roi_matches_full_frame(full(), 5, 4));
    assert!(!dialog.roi_label().is_empty());
}
