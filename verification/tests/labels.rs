use augur_gui::analysis_runs::{range_label, window_label};
use augur_gui::export::estimate_tiff_stack_frames;
use augur_gui::external_tools::{ExternalToolStatus, ExternalToolThroughput};
use augur_gui::naming::slugify;

#[test]
fn range_label_covers_whole_file_and_custom_ranges() {
    assert_eq!(range_label(None, None), "whole file");
    assert_eq!(range_label(Some(10), Some(20)), "[10, 20) us");
    assert_eq!(range_label(None, Some(20)), "[start, 20) us");
}

#[test]
fn slugify_produces_filesystem_safe_names() {
    assert_eq!(slugify("Run 3 — sample.raw"), "run_3___sample_raw");
    assert_eq!(slugify("???"), "analysis_run");
}

#[test]
fn estimated_frame_count_rounds_up_partial_windows() {
    assert_eq!(estimate_tiff_stack_frames(0, 100_000, 50_000), 2);
    assert_eq!(estimate_tiff_stack_frames(0, 100_001, 50_000), 3);
    assert_eq!(estimate_tiff_stack_frames(50_000, 50_000, 50_000), 0);
}

#[test]
fn complete_series_reports_only_the_sent_count() {
    let throughput = ExternalToolThroughput { frames_offered: 120, frames_dropped: 0 };
    assert!(!throughput.has_gaps());
    assert_eq!(throughput.label(), "120 frames sent");
}

#[test]
fn dropped_frames_are_named_in_the_label() {
    let throughput = ExternalToolThroughput { frames_offered: 200, frames_dropped: 50 };
    assert!(throughput.has_gaps());
    assert_eq!(throughput.frames_delivered(), 150);
    assert_eq!(throughput.label(), "150 frames sent \u{00B7} 50 dropped (25.0%)");
}

#[test]
fn statuses_have_labels() {
    assert_eq!(ExternalToolStatus::Disconnected.label(), "Disconnected");
    assert_eq!(ExternalToolStatus::Connecting.label(), "Connecting");
    assert_eq!(ExternalToolStatus::Streaming.label(), "Streaming");
    let failed = ExternalToolStatus::Error("refused".to_owned());
    assert_eq!(failed.label(), "Error: refused");
    assert!(!failed.is_streaming());
    assert!(ExternalToolStatus::Streaming.is_streaming());
}

#[test]
fn loss_shares_agree_with_floating_point() {
    for offered in [1u64, 3, 7, 200, 999, 123_456_789, u64::MAX] {
        for dropped in [1u64, 2, 3, 50, 998, 99_999_999] {
            if dropped > offered {
                continue;
            }
            let label = ExternalToolThroughput {
                frames_offered: offered,
                frames_dropped: dropped,
            }
            .label();
            let percent = dropped as f64 * 100.0 / offered as f64;
            assert!(label.ends_with(&format!("({percent:.1}%)")), "{label} {percent}");
        }
    }
}

#[test]
fn windows_of_whole_milliseconds_are_told_in_them() {
    assert_eq!(window_label(50_000), "50 ms windows");
}
