use augur_gui::binary64::Real32;
use augur_gui::investigation::InvestigationLayout;
use augur_gui::replay::{
    acq_time_us_from_ms, child_viewport_repaint_after, mode_label, pipeline_stream_active,
    process_interval_for_layout, replay_history_has_display_override, replay_history_step_target,
    replay_seek_target_reached, replay_snapshot_frame, replay_speed_matches,
    replay_step_target_time_us, replay_step_uses_current_controller, root_repaint_after, sync_acq_time_atomic,
    viewport_stream_active, AppMode, ControlsReading, FrameArrival, FrameDecision, FrameEvents,
    ReplayCommand, ReplayFileInfo, ReplayFrameHistory, ReplayFrameSnapshot, ReplayReadings,
    ReplayState, ViewerReplayState,
};
use augur_gui::replay_time::{
    aligned_to, derived_replay_preview_interval_ms, replay_byte_from_fraction, replay_fraction_from_time,
    replay_time_from_fraction, replay_time_from_position_sources,
};
use augur_gui::scene::CdEvent;

fn r32(x: f32) -> Real32 {
    Real32::from_bits(x.to_bits())
}

#[test]
fn replay_preview_interval_scales_with_speed() {
    assert_eq!(derived_replay_preview_interval_ms(50, r32(1.0)), 50);
    assert_eq!(derived_replay_preview_interval_ms(50, r32(2.0)), 25);
    assert_eq!(derived_replay_preview_interval_ms(50, r32(0.5)), 100);
}

#[test]
fn replay_preview_interval_clamps_extremes() {
    assert_eq!(derived_replay_preview_interval_ms(1, r32(4.0)), 10);
    assert_eq!(derived_replay_preview_interval_ms(1_000, r32(0.25)), 200);
    assert_eq!(derived_replay_preview_interval_ms(50, r32(f32::INFINITY)), 10);
}

#[test]
fn replay_time_source_prefers_pending_fraction_over_stale_frame() {
    assert_eq!(
        replay_time_from_position_sources(
            false,
            Some(r32(0.6)),
            Some(350),
            420,
            100,
            1_000,
            r32(0.2),
        ),
        600
    );
}

#[test]
fn replay_time_source_prefers_displayed_frame_over_byte_fraction() {
    let time_us =
        replay_time_from_position_sources(false, None, Some(850), 920, 100, 1_000, r32(0.2));

    assert_eq!(time_us, 750);
    let fraction = f32::from_bits(replay_fraction_from_time(time_us, 1_000).bits);
    assert!((fraction - 0.75).abs() < 1e-6);
}

#[test]
fn paused_seek_keeps_decoding_until_target_frame_is_reached() {
    assert!(!replay_seek_target_reached(Some(1_000), 950));
    assert!(replay_seek_target_reached(Some(1_000), 1_000));
    assert!(replay_seek_target_reached(Some(1_000), 1_050));
}

#[test]
fn paused_seek_without_target_accepts_first_frame() {
    assert!(replay_seek_target_reached(None, 50));
}

#[test]
fn replay_step_target_time_clamps_backward_and_forward() {
    assert_eq!(replay_step_target_time_us(500, 100, 1, 1_000), 600);
    assert_eq!(replay_step_target_time_us(500, 100, -6, 1_000), 0);
    assert_eq!(replay_step_target_time_us(950, 100, 2, 1_000), 1_000);
}

#[test]
fn only_paused_forward_steps_keep_the_current_controller() {
    assert!(replay_step_uses_current_controller(1, true, false, true));
    assert!(!replay_step_uses_current_controller(-1, true, false, true));
    assert!(!replay_step_uses_current_controller(1, false, false, true));
    assert!(!replay_step_uses_current_controller(1, true, true, true));
    assert!(!replay_step_uses_current_controller(1, true, false, false));
}

#[test]
fn replay_history_detects_when_display_is_behind_latest() {
    assert!(replay_history_has_display_override(3, Some(1)));
    assert!(!replay_history_has_display_override(3, Some(2)));
    assert!(!replay_history_has_display_override(0, None));
}

#[test]
fn replay_history_step_target_stays_within_cached_frames() {
    assert_eq!(replay_history_step_target(4, Some(2), -1), Some(1));
    assert_eq!(replay_history_step_target(4, Some(1), 2), Some(3));
    assert_eq!(replay_history_step_target(4, Some(0), -1), None);
    assert_eq!(replay_history_step_target(4, Some(3), 1), None);
}

#[test]
fn paused_seek_keeps_stream_updates_alive() {
    assert!(pipeline_stream_active(AppMode::Replaying, true, false, true));
    assert!(!pipeline_stream_active(AppMode::Replaying, true, false, false));
}

#[test]
fn paused_seek_keeps_child_viewports_alive() {
    let replay = ViewerReplayState {
        active: true,
        paused: true,
        finished: false,
        stepping: true,
        ..ViewerReplayState::default()
    };
    assert!(viewport_stream_active(AppMode::Replaying, replay));
}

#[test]
fn replay_acquisition_time_sync_writes_microseconds() {
    let mut acq_time_us = 50_000;

    sync_acq_time_atomic(&mut acq_time_us, 125);

    assert_eq!(acq_time_us, acq_time_us_from_ms(125));
    assert_eq!(acq_time_us, 125_000);
}

#[test]
fn acquisition_time_is_at_least_a_millisecond() {
    assert_eq!(acq_time_us_from_ms(0), 1_000);
    assert_eq!(acq_time_us_from_ms(u64::MAX), u64::MAX);
}

/// What binary64 arithmetic gives for a share of a duration.
fn time_by_floats(fraction: f32, total: u64) -> u64 {
    ((total as f64 * fraction.clamp(0.0, 1.0) as f64).round() as u64).min(total)
}

fn byte_by_floats(fraction: f32, total: u64) -> u64 {
    ((total as f64 * fraction.clamp(0.0, 1.0) as f64) as u64).min(total)
}

fn fraction_by_floats(time: u64, total: u64) -> f32 {
    if total == 0 {
        0.0
    } else {
        (time as f64 / total as f64) as f32
    }
    .clamp(0.0, 1.0)
}

fn interval_by_floats(acq: u64, speed: f32) -> u64 {
    if speed.is_finite() && speed > 0.0 {
        (acq as f64 / speed as f64).round() as u64
    } else {
        10
    }
    .clamp(10, 200)
}

fn samples() -> Vec<u64> {
    let mut out = vec![0, 1, 2, 3, 999, 1_000, 1_000_001, u64::MAX, u64::MAX - 1];
    let mut x: u64 = 0x9e37_79b9_7f4a_7c15;
    for k in 0..60u32 {
        x = x.wrapping_mul(6_364_136_223_846_793_005).wrapping_add(1_442_695_040_888_963_407);
        out.push(x >> (k % 64));
    }
    out
}

fn shares() -> Vec<f32> {
    let mut out = vec![
        0.0,
        -0.0,
        1.0,
        0.5,
        0.6,
        0.1,
        1.5,
        -2.0,
        f32::NAN,
        f32::INFINITY,
        f32::NEG_INFINITY,
        f32::MIN_POSITIVE,
        f32::from_bits(1),
        f32::from_bits(0x3f7f_ffff),
    ];
    for k in 0..20u32 {
        out.push(f32::from_bits(0x3f00_0000 - k * 0x0123_4567 / 2));
    }
    out
}

#[test]
fn shares_of_durations_agree_with_floating_point() {
    for total in samples() {
        for share in shares() {
            assert_eq!(
                replay_time_from_fraction(r32(share), total),
                time_by_floats(share, total),
                "{share} of {total}"
            );
            assert_eq!(
                replay_byte_from_fraction(r32(share), total),
                byte_by_floats(share, total),
                "{share} of {total}"
            );
        }
    }
}

#[test]
fn fractions_of_times_agree_with_floating_point() {
    for total in samples() {
        for time in samples() {
            assert_eq!(
                replay_fraction_from_time(time, total).bits,
                fraction_by_floats(time, total).to_bits(),
                "{time} of {total}"
            );
        }
    }
}

#[test]
fn replay_intervals_agree_with_floating_point() {
    for acq in samples() {
        for speed in shares() {
            assert_eq!(
                derived_replay_preview_interval_ms(acq, r32(speed)),
                interval_by_floats(acq, speed),
                "{acq} at {speed}"
            );
        }
    }
}

#[test]
fn whole_share_is_the_end() {
    assert_eq!(replay_time_from_fraction(r32(1.0), 123_456_789), 123_456_789);
    assert_eq!(replay_time_from_fraction(r32(0.0), 123_456_789), 0);
}

#[test]
fn position_falls_back_to_the_decoder_and_to_bytes() {
    let at = |finished, stamp| {
        replay_time_from_position_sources(finished, None, None, stamp, 100, 1_000, r32(0.25))
    };
    assert_eq!(at(true, 400), 1_000);
    assert_eq!(at(false, 400), 300);
    assert_eq!(at(false, 50), 0);
    assert_eq!(at(false, 0), 250);
}

#[test]
fn split_views_take_the_shorter_interval() {
    let at = |layout| process_interval_for_layout(layout, 33, 67);
    assert_eq!(at(InvestigationLayout::Preview2dOnly), 33);
    assert_eq!(at(InvestigationLayout::Split2d3d), 33);
    assert_eq!(at(InvestigationLayout::Inspection3dOnly), 67);
}

#[test]
fn viewports_repaint_while_something_happens() {
    assert_eq!(child_viewport_repaint_after(false, false, 50, 33), None);
    assert_eq!(child_viewport_repaint_after(true, false, 50, 33), Some(50));
    assert_eq!(child_viewport_repaint_after(false, true, 50, 33), Some(33));
    assert_eq!(child_viewport_repaint_after(true, true, 50, 33), Some(33));
    assert_eq!(child_viewport_repaint_after(true, true, 20, 33), Some(20));
    assert_eq!(root_repaint_after(true, true, true, 50, 33), Some(33));
    assert_eq!(root_repaint_after(false, true, true, 50, 33), Some(50));
    assert_eq!(root_repaint_after(false, true, false, 50, 33), None);
    assert_eq!(root_repaint_after(false, false, true, 50, 33), None);
}

#[test]
fn modes_have_names() {
    assert_eq!(mode_label(AppMode::Idle), "Idle");
    assert_eq!(mode_label(AppMode::Previewing), "Previewing");
    assert_eq!(mode_label(AppMode::Recording), "Recording");
    assert_eq!(mode_label(AppMode::Replaying), "Replaying");
}

#[test]
fn replay_snapshot_keeps_upstream_events_without_inline_cache() {
    let events = vec![CdEvent { x: 2, y: 3, timestamp: 42, polarity: true }];
    let source = events.clone();
    let snapshot = replay_snapshot_frame(FrameEvents {
        events: Some(events.clone()),
        event_range: Some((40u64, 45u64)),
        event_source: Some(source),
    });
    assert!(snapshot.events.is_none());
    let (from, until) = snapshot.event_range.unwrap();
    let upstream: Vec<CdEvent> = snapshot
        .event_source
        .unwrap()
        .into_iter()
        .filter(|event| from <= event.timestamp && event.timestamp < until)
        .collect();
    assert_eq!(upstream, events);
}

#[test]
fn snapshots_keep_events_that_the_stream_lacks() {
    let own = replay_snapshot_frame(FrameEvents {
        events: Some(vec![1, 2]),
        event_range: None::<(u64, u64)>,
        event_source: Some(()),
    });
    assert_eq!(own.events, Some(vec![1, 2]));
    assert!(own.event_source.is_some() && own.event_range.is_none());
}

#[test]
fn speeds_are_compared() {
    for (speed, entry) in [(1.0f32, 1.0f32), (0.1, 0.1 + 1.0e-8), (1.0, 1.0000002), (0.5, 1.0)] {
        let expected = (speed - entry).abs() < f32::EPSILON;
        assert_eq!(replay_speed_matches(r32(speed), r32(entry)), expected);
    }
    assert!(!replay_speed_matches(r32(f32::NAN), r32(1.0)));
}

fn snapshot(n: u32) -> ReplayFrameSnapshot<u32> {
    ReplayFrameSnapshot { content: n, bytes_read: u64::from(n) * 10 }
}

fn contents(history: &ReplayFrameHistory<u32>) -> Vec<u32> {
    history.frames.iter().map(|frame| frame.content).collect()
}

#[test]
fn history_keeps_the_newest_frames() {
    let mut history = ReplayFrameHistory::new();
    for n in 0..11 {
        history.record(snapshot(n));
    }
    assert_eq!(contents(&history), vec![3, 4, 5, 6, 7, 8, 9, 10]);
    assert_eq!(history.cursor, Some(7));
    assert!(!history.has_display_override());
    history.clear();
    assert_eq!(contents(&history), Vec::<u32>::new());
    assert_eq!(history.cursor, None);
}

fn info() -> ReplayFileInfo {
    ReplayFileInfo {
        data_offset: 64,
        data_len: 10_000,
        width: 640,
        height: 480,
        first_timestamp_us: 100,
        total_duration_us: 1_000_000,
    }
}

fn readings(window_end: Option<u64>) -> ReplayReadings {
    ReplayReadings {
        controls: Some(ControlsReading {
            bytes_read: 500,
            file_size: 10_016,
            data_offset: 16,
            current_timestamp_us: 50_100,
        }),
        frame_window_end_us: window_end,
        controller_present: true,
        controller_stopped: false,
    }
}

fn replay_with_frames() -> ReplayState<u32> {
    let mut replay = ReplayState::closed();
    replay.opened(info());
    for n in 0..3 {
        replay.record_replay_frame_snapshot(AppMode::Replaying, snapshot(n));
    }
    replay
}

#[test]
fn steps_go_through_kept_frames_first() {
    let mut replay = replay_with_frames();
    let r = readings(Some(50_100));
    assert_eq!(replay.step_replay(AppMode::Replaying, -1, 50, &r), ReplayCommand::Show(1));
    assert!(replay.paused);
    assert!(replay.history.has_display_override());
    assert_eq!(replay.history.bytes_on_display(500), 10);
    assert_eq!(replay.step_replay(AppMode::Replaying, 1, 50, &r), ReplayCommand::Show(2));
    assert!(!replay.history.has_display_override());
    assert_eq!(replay.history.bytes_on_display(500), 500);
    assert_eq!(replay.step_replay(AppMode::Idle, 1, 50, &r), ReplayCommand::Nothing);
    assert_eq!(replay.step_replay(AppMode::Replaying, 0, 50, &r), ReplayCommand::Nothing);
}

#[test]
fn paused_steps_beyond_the_history_go_on_decoding() {
    let mut replay = replay_with_frames();
    let r = readings(Some(50_100));
    assert_eq!(replay.set_replay_paused(true, &r), ReplayCommand::SetPaused(true));
    assert_eq!(replay.step_replay(AppMode::Replaying, 1, 50, &r), ReplayCommand::SetPaused(false));
    assert!(replay.paused && replay.pause_after_seek_frame);
    assert_eq!(replay.pause_after_seek_target_timestamp_us, Some(100_100));
    assert_eq!(replay.pending_fraction.map(|f| f.bits), Some(0.1f32.to_bits()));
    assert_eq!(replay.current_replay_time_us(&r), 100_000);
}

#[test]
fn other_steps_beyond_the_history_seek() {
    let mut replay = replay_with_frames();
    let r = readings(Some(500_100));
    match replay.step_replay(AppMode::Replaying, -5, 50, &r) {
        ReplayCommand::Reopen { fraction, desired_paused } => {
            assert_eq!(fraction.bits, 0.25f32.to_bits());
            assert!(!desired_paused);
        }
        other => panic!("{other:?}"),
    }
    let mut closed: ReplayState<u32> = ReplayState::closed();
    assert_eq!(
        closed.step_replay(AppMode::Replaying, 1, 50, &r),
        ReplayCommand::MetadataMissing
    );
}

#[test]
fn resuming_from_an_older_frame_reopens_the_file_there() {
    let mut replay = replay_with_frames();
    let r = readings(Some(250_100));
    replay.step_replay(AppMode::Replaying, -2, 50, &r);
    assert_eq!(
        replay.set_replay_paused(false, &r),
        ReplayCommand::Reopen { fraction: r32(0.25), desired_paused: false }
    );
    let without = ReplayReadings { controls: None, ..r };
    assert_eq!(replay.set_replay_paused(true, &without), ReplayCommand::Nothing);
}

fn arrival(window_end_us: u64) -> FrameArrival {
    FrameArrival {
        window_end_us,
        external_streaming: false,
        shows_2d: true,
        has_texture: true,
        has_controls: true,
        since_processed_ms: Some(1_000),
        process_interval_ms: 50,
    }
}

#[test]
fn paused_seeks_wait_for_their_place() {
    let mut replay = replay_with_frames();
    let plan = replay.plan_reopen(r32(0.5), true).unwrap();
    assert_eq!(plan.target_rel, 5_000);
    assert_eq!(plan.target_timestamp_us, 500_100);
    assert_eq!(replay.history.frames.len(), 0);
    replay.reopened(&plan);
    assert_eq!(replay.frame_arrived(AppMode::Replaying, &arrival(400_000)), FrameDecision::Wait);
    assert!(replay.pause_after_seek_frame);
    assert_eq!(
        replay.frame_arrived(AppMode::Replaying, &arrival(500_100)),
        FrameDecision::Process { pause_controls: true }
    );
    assert!(replay.paused && !replay.pause_after_seek_frame);
    assert_eq!(replay.pending_fraction, None);
    assert_eq!(replay.pause_after_seek_target_timestamp_us, None);
}

#[test]
fn running_seeks_take_the_first_frame() {
    let mut replay = replay_with_frames();
    let plan = replay.plan_reopen(r32(2.0), false).unwrap();
    assert_eq!(plan.fraction, r32(1.0));
    replay.reopened(&plan);
    assert_eq!(
        replay.frame_arrived(AppMode::Replaying, &arrival(1)),
        FrameDecision::Process { pause_controls: false }
    );
    assert!(!replay.paused);
}

#[test]
fn frames_that_come_too_early_are_skipped() {
    let mut replay = replay_with_frames();
    let early = FrameArrival { since_processed_ms: Some(49), ..arrival(1) };
    assert_eq!(replay.frame_arrived(AppMode::Replaying, &early), FrameDecision::Skip);
    let first = FrameArrival { has_texture: false, ..early };
    assert_eq!(
        replay.frame_arrived(AppMode::Replaying, &first),
        FrameDecision::Process { pause_controls: false }
    );
    let never = FrameArrival { since_processed_ms: None, ..arrival(1) };
    assert_eq!(
        replay.frame_arrived(AppMode::Previewing, &never),
        FrameDecision::Process { pause_controls: false }
    );
}

#[test]
fn failed_and_finished_replays_stay_paused() {
    let mut replay = replay_with_frames();
    replay.reopen_failed();
    assert!(replay.finished && replay.paused);
    assert_eq!(
        replay.restart_replay(AppMode::Replaying),
        ReplayCommand::Reopen { fraction: r32(0.0), desired_paused: true }
    );
    let mut other = replay_with_frames();
    other.finish_replay();
    assert!(other.finished && other.paused);
    assert_eq!(other.current_replay_fraction(&readings(None)), r32(1.0));
    assert_eq!(other.current_replay_time_us(&readings(None)), 1_000_000);
    other.clear();
    assert!(!other.finished && other.info.is_none());
}

#[test]
fn selected_rows_move_a_paused_replay() {
    let mut replay = replay_with_frames();
    assert_eq!(
        replay.seek_to_anchor(AppMode::Replaying, Some(500_100)),
        ReplayCommand::Nothing
    );
    replay.paused = true;
    assert_eq!(
        replay.seek_to_anchor(AppMode::Replaying, Some(500_100)),
        ReplayCommand::Reopen { fraction: r32(0.5), desired_paused: true }
    );
    assert_eq!(replay.seek_to_anchor(AppMode::Replaying, None), ReplayCommand::Nothing);
}

#[test]
fn viewers_see_the_state_of_the_replay() {
    let replay = replay_with_frames();
    let shown = replay.viewer_replay_state(AppMode::Replaying, &readings(Some(500_100)));
    assert!(shown.active && !shown.paused);
    assert_eq!(shown.fraction, r32(0.5));
    assert_eq!(shown.time_us, 500_000);
    assert_eq!(shown.bytes_read, 500);
    assert_eq!(shown.data_len, 10_000);
    assert!(!replay.viewer_replay_state(AppMode::Idle, &readings(None)).active);
}

#[test]
fn speed_changes_need_controls() {
    let mut replay = replay_with_frames();
    let r = readings(None);
    assert_eq!(
        replay.set_replay_speed(r32(2.0), &r),
        ReplayCommand::SetSpeed(r32(2.0))
    );
    let without = ReplayReadings { controls: None, ..r };
    assert_eq!(replay.set_replay_speed(r32(4.0), &without), ReplayCommand::Nothing);
    assert_eq!(replay.speed, r32(2.0));
}

#[test]
fn seeks_begin_at_whole_records() {
    assert_eq!(aligned_to(0, 16), 0);
    assert_eq!(aligned_to(15, 16), 0);
    assert_eq!(aligned_to(33, 16), 32);
    assert_eq!(aligned_to(7, 1), 7);
    assert_eq!(aligned_to(u64::MAX, 2), u64::MAX - 1);
}
