use augur_gui::binary64::Real32;
use augur_gui::hotpixel::{
    copy_detected_hotpixels_to_mask, AnalysisOutput, AnalysisSeverity, BuiltInHotpixelDetection,
    FrameDims, Overlay, SensorPixel, HOTPIXEL_OVERLAY_COLOR, IMX636_DEM_SLOTS,
};

fn tuned(
    history_depth: u32,
    threshold_factor: f32,
    min_absolute_count: u16,
) -> BuiltInHotpixelDetection {
    BuiltInHotpixelDetection {
        history_depth,
        threshold_factor: Real32::from_bits(threshold_factor.to_bits()),
        min_absolute_count,
        ..BuiltInHotpixelDetection::default()
    }
}

fn dims(width: u16, height: u16) -> FrameDims {
    FrameDims { width, height }
}

#[test]
fn hotpixel_detection_detects_consistent_hot_pixels() {
    let mut detection = tuned(4, 5.0, 5);
    let mut output = AnalysisOutput::default();
    for _ in 0..4 {
        output = AnalysisOutput::default();
        let mut pixels = vec![0; 16];
        pixels[6] = 40;
        detection.process_frame(dims(4, 4), &pixels, &mut output);
    }

    assert_eq!(detection.detected_pixels(), &vec![SensorPixel { x: 2, y: 1 }]);
    assert_eq!(detection.last_detected_count, 1);
    assert_eq!(output.warnings.len(), 1);
    assert!(matches!(output.overlays.as_slice(), [Overlay::HighlightPixels { .. }]));
    assert_eq!(detection.status_text(), "Last frame: 1 detected hotpixels.");
    assert_eq!(output.warnings[0].message, "1 suspected hot pixels detected");
    assert_eq!(output.warnings[0].severity, AnalysisSeverity::Info);
}

#[test]
fn hotpixel_detection_ignores_uniform_activity() {
    let mut detection = tuned(4, 2.0, 1);
    let mut output = AnalysisOutput::default();
    detection.process_frame(dims(4, 4), &vec![8; 16], &mut output);

    assert!(output.warnings.is_empty());
    assert!(output.overlays.is_empty());
    assert!(detection.detected_pixels().is_empty());
}

#[test]
fn disabling_hotpixel_detection_clears_previous_results() {
    let mut detection = BuiltInHotpixelDetection::default();
    let mut output = AnalysisOutput::default();
    detection.process_frame(dims(2, 1), &vec![50, 0], &mut output);
    assert!(detection.set_enabled(false));

    assert!(detection.detected_pixels().is_empty());
    assert_eq!(detection.last_detected_count, 0);
    assert!(detection.is_dirty());
    let mut later = AnalysisOutput::default();
    detection.process_frame(dims(2, 1), &vec![500, 0], &mut later);
    assert!(later.warnings.is_empty() && detection.detected_pixels().is_empty());
}

#[test]
fn counts_are_smoothed_in_single_precision() {
    for depth in [0u32, 1, 2, 3, 7, 16, 64, 1_000_003] {
        let mut detection = tuned(depth, 1.7, 3);
        let alpha = 1.0 / depth.max(1) as f32;
        let decay = 1.0 - alpha;
        let mut expected = vec![0.0f32; 12];
        for round in 0..9u32 {
            let pixels: Vec<u16> =
                (0..12u32).map(|i| ((i * 7919 + round * 104_729) % 613) as u16).collect();
            let mut output = AnalysisOutput::default();
            detection.process_frame(dims(4, 3), &pixels, &mut output);
            let mut sum = 0.0f32;
            for (count, pixel) in expected.iter_mut().zip(&pixels) {
                *count = alpha * f32::from(*pixel) + decay * *count;
                sum += *count;
            }
            let smooth: Vec<f32> =
                detection.ema_counts.iter().map(|count| f32::from_bits(count.bits)).collect();
            assert_eq!(smooth, expected);
            let threshold = (sum / 12.0 * 1.7f32).max(3.0);
            let hot: Vec<SensorPixel> = (0..12u16)
                .filter(|i| expected[usize::from(*i)] >= threshold)
                .map(|i| SensorPixel { x: i % 4, y: i / 4 })
                .collect();
            assert_eq!(detection.detected_pixels(), &hot);
            assert_eq!(output.overlays.len(), usize::from(!hot.is_empty()));
        }
    }
}

#[test]
fn frames_of_another_shape_start_anew() {
    let mut detection = tuned(2, 5.0, 5);
    let mut output = AnalysisOutput::default();
    detection.process_frame(dims(2, 2), &vec![8, 0, 0, 0], &mut output);
    let count = |detection: &BuiltInHotpixelDetection| f32::from_bits(detection.ema_counts[0].bits);
    assert_eq!(count(&detection), 4.0);
    detection.process_frame(dims(2, 2), &vec![8, 0, 0, 0], &mut output);
    assert_eq!(count(&detection), 6.0);
    detection.process_frame(dims(4, 1), &vec![8, 0, 0, 0], &mut output);
    assert_eq!(count(&detection), 4.0);
    detection.reset();
    assert_eq!((count(&detection), detection.frame_dims), (0.0, None));
}

#[test]
fn many_hot_pixels_are_serious() {
    for (hot, severity) in [
        (5usize, AnalysisSeverity::Info),
        (6, AnalysisSeverity::Warning),
        (20, AnalysisSeverity::Warning),
        (21, AnalysisSeverity::Error),
    ] {
        let mut detection = tuned(1, 10.0, 5);
        let mut pixels = vec![0u16; 4096];
        for pixel in pixels.iter_mut().take(hot) {
            *pixel = 9;
        }
        let mut output = AnalysisOutput::default();
        detection.process_frame(dims(64, 64), &pixels, &mut output);
        assert_eq!(output.warnings[0].severity, severity);
        assert_eq!(detection.detected_pixels().len(), hot);
        let Overlay::HighlightPixels { pixels, color } = &output.overlays[0];
        assert_eq!((pixels.len(), *color), (hot, HOTPIXEL_OVERLAY_COLOR));
    }
}

fn pixels(n: u16) -> Vec<SensorPixel> {
    (0..n).map(|x| SensorPixel { x, y: 3 }).collect()
}

#[test]
fn masks_take_what_fits() {
    let mut mask = pixels(2);
    let (notice, changed) = copy_detected_hotpixels_to_mask(&mut mask, &pixels(70));
    assert!(changed);
    assert_eq!(mask.len(), IMX636_DEM_SLOTS);
    assert_eq!(notice, "Mask copy: added 62, duplicates 2, skipped by DEM limit 6.");
    let (notice, changed) = copy_detected_hotpixels_to_mask(&mut mask, &pixels(10));
    assert!(!changed);
    assert_eq!(notice, "Mask copy: added 0, duplicates 10, skipped by DEM limit 0.");
    let (notice, changed) = copy_detected_hotpixels_to_mask(&mut mask, &Vec::new());
    assert!(!changed);
    assert_eq!(notice, "No detected hotpixels are available to copy.");
}

#[test]
fn detection_that_is_off_takes_any_frame() {
    let mut detection = BuiltInHotpixelDetection::default();
    assert!(detection.set_enabled(false));
    let mut output = AnalysisOutput::default();
    detection.process_frame(dims(0, 1), &vec![50, 0], &mut output);
    assert!(output.warnings.is_empty() && detection.detected_pixels().is_empty());
}
