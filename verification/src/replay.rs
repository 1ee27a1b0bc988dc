//! The replay transport: what is streaming, how frames are stepped through,
//! and the frames that are kept for stepping back.
use crate::binary64::{Real32, ONE_BITS_32};
use crate::investigation::InvestigationLayout;
use crate::replay_time::{
    byte_at, current_replay_byte_fraction, data_bytes, position_time, read_share,
    replay_byte_from_fraction, replay_fraction_from_time, replay_time_from_fraction,
    replay_time_from_position_sources, share_before, share_of, time_at, time_in_replay, time_since,
};
use crate::single::{absolute, minus, minus_of, unsigned};
use vstd::prelude::*;

verus! {

/// What the application is doing.
#[derive(Debug, Clone, Copy, PartialEq, Eq, Structural)]
pub enum AppMode {
    Idle,
    Previewing,
    Recording,
    Replaying,
}

pub fn mode_label(mode: AppMode) -> (out: &'static str)
    ensures
        out@ == (match mode {
            AppMode::Idle => "Idle"@,
            AppMode::Previewing => "Previewing"@,
            AppMode::Recording => "Recording"@,
            AppMode::Replaying => "Replaying"@,
        }),
{
    match mode {
        AppMode::Idle => "Idle",
        AppMode::Previewing => "Previewing",
        AppMode::Recording => "Recording",
        AppMode::Replaying => "Replaying",
    }
}

/// Whether frames come from the camera.
pub open spec fn is_live(mode: AppMode) -> bool {
    mode == AppMode::Previewing || mode == AppMode::Recording
}

/// What a viewer shows of the replay.
#[derive(Debug, Clone, Copy, PartialEq, Eq, Structural)]
pub struct ViewerReplayState {
    pub active: bool,
    pub paused: bool,
    pub finished: bool,
    pub stepping: bool,
    pub speed: Real32,
    pub fraction: Real32,
    pub duration_us: u64,
    pub time_us: u64,
    pub bytes_read: u64,
    pub data_len: u64,
}

impl Default for ViewerReplayState {
    fn default() -> (out: Self)
        ensures
            out == (ViewerReplayState {
                active: false,
                paused: false,
                finished: false,
                stepping: false,
                speed: Real32 { bits: 0 },
                fraction: Real32 { bits: 0 },
                duration_us: 0,
                time_us: 0,
                bytes_read: 0,
                data_len: 0,
            }),
    {
        ViewerReplayState {
            active: false,
            paused: false,
            finished: false,
            stepping: false,
            speed: Real32 { bits: 0 },
            fraction: Real32 { bits: 0 },
            duration_us: 0,
            time_us: 0,
            bytes_read: 0,
            data_len: 0,
        }
    }
}

/// The milliseconds between two processed frames. A split view takes the
/// shorter one of the two intervals.
pub fn process_interval_for_layout(
    layout: InvestigationLayout,
    preview_interval_ms: u64,
    point_cloud_interval_ms: u64,
) -> (out: u64)
    ensures
        out == (match layout {
            InvestigationLayout::Preview2dOnly => preview_interval_ms,
            InvestigationLayout::Split2d3d => if preview_interval_ms < point_cloud_interval_ms {
                preview_interval_ms
            } else {
                point_cloud_interval_ms
            },
            InvestigationLayout::Inspection3dOnly => point_cloud_interval_ms,
        }),
{
    match layout {
        InvestigationLayout::Preview2dOnly => preview_interval_ms,
        InvestigationLayout::Split2d3d => if preview_interval_ms < point_cloud_interval_ms {
            preview_interval_ms
        } else {
            point_cloud_interval_ms
        },
        InvestigationLayout::Inspection3dOnly => point_cloud_interval_ms,
    }
}

/// Whether new frames are expected in a viewport.
pub fn viewport_stream_active(mode: AppMode, replay: ViewerReplayState) -> (out: bool)
    ensures
        out == (is_live(mode) || (mode == AppMode::Replaying && replay.active && ((!replay.paused
            && !replay.finished) || replay.stepping))),
{
    match mode {
        AppMode::Previewing | AppMode::Recording => true,
        AppMode::Replaying => replay.active && ((!replay.paused && !replay.finished)
            || replay.stepping),
        AppMode::Idle => false,
    }
}

/// Whether the pipeline is expected to give new frames.
pub fn pipeline_stream_active(
    mode: AppMode,
    replay_paused: bool,
    replay_finished: bool,
    replay_pause_after_seek_frame: bool,
) -> (out: bool)
    ensures
        out == (is_live(mode) || (mode == AppMode::Replaying && ((!replay_paused
            && !replay_finished) || replay_pause_after_seek_frame))),
{
    match mode {
        AppMode::Previewing | AppMode::Recording => true,
        AppMode::Replaying => (!replay_paused && !replay_finished)
            || replay_pause_after_seek_frame,
        AppMode::Idle => false,
    }
}

/// After how many milliseconds a child viewport is drawn again, if it is.
pub fn child_viewport_repaint_after(
    stream_active: bool,
    replay_open_task_active: bool,
    process_interval_ms: u64,
    preview_interval_ms: u64,
) -> (out: Option<u64>)
    ensures
        out == (if stream_active && replay_open_task_active {
            Some(
                if preview_interval_ms < process_interval_ms {
                    preview_interval_ms
                } else {
                    process_interval_ms
                },
            )
        } else if stream_active {
            Some(process_interval_ms)
        } else if replay_open_task_active {
            Some(preview_interval_ms)
        } else {
            None
        }),
{
    if stream_active {
        if replay_open_task_active && preview_interval_ms < process_interval_ms {
            Some(preview_interval_ms)
        } else {
            Some(process_interval_ms)
        }
    } else if replay_open_task_active {
        Some(preview_interval_ms)
    } else {
        None
    }
}

/// After how many milliseconds the main window is drawn again, if it is.
pub fn root_repaint_after(
    replay_open_task_active: bool,
    stream_active: bool,
    controller_active: bool,
    process_interval_ms: u64,
    preview_interval_ms: u64,
) -> (out: Option<u64>)
    ensures
        out == (if replay_open_task_active {
            Some(preview_interval_ms)
        } else if stream_active && controller_active {
            Some(process_interval_ms)
        } else {
            None
        }),
{
    if replay_open_task_active {
        Some(preview_interval_ms)
    } else if stream_active && controller_active {
        Some(process_interval_ms)
    } else {
        None
    }
}

/// An acquisition time in microseconds. It is at least a millisecond.
pub open spec fn acq_time_us(acq_time_ms: u64) -> nat {
    let ms: nat = if acq_time_ms == 0 {
        1
    } else {
        acq_time_ms as nat
    };
    if ms * 1000 > u64::MAX {
        u64::MAX as nat
    } else {
        ms * 1000
    }
}

pub fn acq_time_us_from_ms(acq_time_ms: u64) -> (out: u64)
    ensures
        out == acq_time_us(acq_time_ms),
{
    let ms: u64 = if acq_time_ms == 0 {
        1
    } else {
        acq_time_ms
    };
    match ms.checked_mul(1_000) {
        Some(us) => us,
        None => u64::MAX,
    }
}

/// Writes the acquisition time into the cell that the pipeline reads it from.
pub fn sync_acq_time_atomic(acq_time_us: &mut u64, acq_time_ms: u64)
    ensures
        *final(acq_time_us) == self::acq_time_us(acq_time_ms),
{
    *acq_time_us = acq_time_us_from_ms(acq_time_ms);
}

/// Whether a frame is at the place that a seek goes to. Without such a place
/// every frame is.
pub open spec fn target_reached(target_timestamp_us: Option<u64>, frame_window_end_us: u64) -> bool {
    match target_timestamp_us {
        Some(target) => frame_window_end_us >= target,
        None => true,
    }
}

pub fn replay_seek_target_reached(
    target_timestamp_us: Option<u64>,
    frame_window_end_us: u64,
) -> (out: bool)
    ensures
        out == target_reached(target_timestamp_us, frame_window_end_us),
{
    match target_timestamp_us {
        Some(target) => frame_window_end_us >= target,
        None => true,
    }
}

/// The time after a number of steps, within the replay.
pub open spec fn stepped_time(current: nat, step: nat, steps: int, total: nat) -> nat {
    let width: int = if step == 0 {
        1
    } else {
        step as int
    };
    let wanted = current + steps * width;
    if wanted < 0 {
        0
    } else if wanted > total {
        total
    } else {
        wanted as nat
    }
}

pub fn replay_step_target_time_us(
    current_time_us: u64,
    frame_step_us: u64,
    frame_steps: i64,
    total_duration_us: u64,
) -> (out: u64)
    ensures
        out == stepped_time(
            current_time_us as nat,
            frame_step_us as nat,
            frame_steps as int,
            total_duration_us as nat,
        ),
        out <= total_duration_us,
{
    let width: u64 = if frame_step_us == 0 {
        1
    } else {
        frame_step_us
    };
    proof {
        assert(-0x8000_0000_0000_0000_0000_0000_0000_0000 < frame_steps * width
            < 0x7fff_ffff_ffff_ffff_0000_0000_0000_0000) by (nonlinear_arith)
            requires
                -0x8000_0000_0000_0000 <= frame_steps <= 0x7fff_ffff_ffff_ffff,
                0 <= width <= 0xffff_ffff_ffff_ffff,
        ;
    }
    let wanted: i128 = current_time_us as i128 + frame_steps as i128 * width as i128;
    if wanted < 0 {
        0
    } else if wanted > total_duration_us as i128 {
        total_duration_us
    } else {
        wanted as u64
    }
}

/// Whether a step goes on with the running decoder rather than to a seek.
pub fn replay_step_uses_current_controller(
    frame_steps: i64,
    replay_paused: bool,
    replay_finished: bool,
    controller_active: bool,
) -> (out: bool)
    ensures
        out == (frame_steps > 0 && replay_paused && !replay_finished && controller_active),
{
    frame_steps > 0 && replay_paused && !replay_finished && controller_active
}

/// Whether the frame on display is older than the newest one.
pub open spec fn shows_older_frame(history_len: nat, cursor: Option<usize>) -> bool {
    cursor is Some && cursor->0 + 1 < history_len
}

pub fn replay_history_has_display_override(history_len: usize, cursor: Option<usize>) -> (out: bool)
    ensures
        out == shows_older_frame(history_len as nat, cursor),
{
    match cursor {
        Some(at) => at < history_len && at < history_len - 1,
        None => false,
    }
}

/// The kept frame that a number of steps leads to, if it is among those.
pub open spec fn history_target(history_len: nat, cursor: Option<usize>, steps: int) -> Option<
    usize,
> {
    if steps != 0 && cursor is Some && 0 <= cursor->0 + steps < history_len {
        Some((cursor->0 + steps) as usize)
    } else {
        None
    }
}

pub fn replay_history_step_target(
    history_len: usize,
    cursor: Option<usize>,
    frame_steps: i64,
) -> (out: Option<usize>)
    ensures
        out == history_target(history_len as nat, cursor, frame_steps as int),
        out matches Some(at) ==> at < history_len,
{
    if frame_steps == 0 {
        return None;
    }
    match cursor {
        Some(at) => {
            let target: i128 = at as i128 + frame_steps as i128;
            if 0 <= target && target < history_len as i128 {
                Some(target as usize)
            } else {
                None
            }
        },
        None => None,
    }
}

/// As many steps back as forward lead to the frame where one began.
pub proof fn steps_back_undo_steps(history_len: nat, cursor: Option<usize>, steps: int)
    requires
        history_len <= usize::MAX,
        cursor matches Some(at) ==> at < history_len,
        history_target(history_len, cursor, steps) is Some,
    ensures
        history_target(history_len, history_target(history_len, cursor, steps), -steps) == cursor,
{
}

/// Every time between the start and the end is reached by as many steps back
/// as forward, where neither end is in the way.
pub proof fn times_are_stepped_back(current: nat, step: nat, steps: int, total: nat)
    requires
        step > 0,
        current <= total,
        0 <= current + steps * step <= total,
    ensures
        stepped_time(stepped_time(current, step, steps, total), step, -steps, total) == current,
{
    assert((-steps) * step == -(steps * step)) by (nonlinear_arith);
}

/// The events of a frame: those that it holds itself, and the part of the
/// stream that it was cut from, where they can be had again.
#[derive(Debug)]
pub struct FrameEvents<E, R, Q> {
    pub events: Option<E>,
    pub event_range: Option<R>,
    pub event_source: Option<Q>,
}

/// What is kept of a frame: its own copy of the events is dropped where the
/// stream still has them.
pub fn replay_snapshot_frame<E, R, Q>(frame: FrameEvents<E, R, Q>) -> (out: FrameEvents<E, R, Q>)
    ensures
        out == (FrameEvents {
            events: if frame.event_source is Some && frame.event_range is Some {
                None
            } else {
                frame.events
            },
            ..frame
        }),
{
    if frame.event_source.is_some() && frame.event_range.is_some() {
        FrameEvents { events: None, ..frame }
    } else {
        frame
    }
}

/// How many frames are kept for stepping back.
pub const REPLAY_FRAME_HISTORY_CAPACITY: usize = 8;

/// A kept frame, and how far the file was read when it was shown.
#[derive(Debug)]
pub struct ReplayFrameSnapshot<S> {
    pub content: S,
    pub bytes_read: u64,
}

/// The newest frames of a replay, oldest first, and the one on display.
#[derive(Debug)]
pub struct ReplayFrameHistory<S> {
    pub frames: Vec<ReplayFrameSnapshot<S>>,
    pub cursor: Option<usize>,
}

impl<S> ReplayFrameHistory<S> {
    pub open spec fn wf(self) -> bool {
        &&& self.frames@.len() <= REPLAY_FRAME_HISTORY_CAPACITY
        &&& self.cursor matches Some(at) ==> at < self.frames@.len()
    }

    /// Whether the frame on display is older than the newest one.
    pub open spec fn overrides(self) -> bool {
        shows_older_frame(self.frames@.len(), self.cursor)
    }

    pub fn new() -> (out: Self)
        ensures
            out.wf(),
            out.frames@ == Seq::<ReplayFrameSnapshot<S>>::empty(),
            out.cursor is None,
    {
        ReplayFrameHistory { frames: Vec::new(), cursor: None }
    }

    pub fn clear(&mut self)
        ensures
            final(self).wf(),
            final(self).frames@ == Seq::<ReplayFrameSnapshot<S>>::empty(),
            final(self).cursor is None,
    {
        self.frames = Vec::new();
        self.cursor = None;
    }

    pub fn has_display_override(&self) -> (out: bool)
        ensures
            out == self.overrides(),
    {
        replay_history_has_display_override(self.frames.len(), self.cursor)
    }

    /// Keeps a new frame, which is then on display. Of too many frames the
    /// oldest one goes.
    pub fn record(&mut self, snapshot: ReplayFrameSnapshot<S>)
        requires
            old(self).wf(),
        ensures
            final(self).wf(),
            final(self).frames@ == (if old(self).frames@.len() == REPLAY_FRAME_HISTORY_CAPACITY {
                old(self).frames@.drop_first()
            } else {
                old(self).frames@
            }).push(snapshot),
            final(self).cursor == Some((final(self).frames@.len() - 1) as usize),
            !final(self).overrides(),
    {
        if self.frames.len() == REPLAY_FRAME_HISTORY_CAPACITY {
            let _oldest = self.frames.remove(0);
            assert(self.frames@ =~= old(self).frames@.drop_first());
        }
        self.frames.push(snapshot);
        self.cursor = Some(self.frames.len() - 1);
    }

    /// How far the file was read when the frame on display was new, or is read
    /// now where that is the newest one.
    pub open spec fn displayed_bytes(self, bytes_read: u64) -> u64 {
        if self.overrides() {
            self.frames@[self.cursor->0 as int].bytes_read
        } else {
            bytes_read
        }
    }

    pub fn bytes_on_display(&self, bytes_read: u64) -> (out: u64)
        requires
            self.wf(),
        ensures
            out == self.displayed_bytes(bytes_read),
    {
        if self.has_display_override() {
            match self.cursor {
                Some(at) => self.frames[at].bytes_read,
                None => bytes_read,
            }
        } else {
            bytes_read
        }
    }
}

/// What the library reads of a replay file.
#[derive(Debug, Clone, Copy, PartialEq, Eq, Structural)]
pub struct ReplayFileInfo {
    pub data_offset: u64,
    pub data_len: u64,
    pub width: u16,
    pub height: u16,
    pub first_timestamp_us: u64,
    pub total_duration_us: u64,
}

/// What the decoder's controls show: how far the file is read, as bytes and as
/// a timestamp, and where its data lies.
#[derive(Debug, Clone, Copy, PartialEq, Eq, Structural)]
pub struct ControlsReading {
    pub bytes_read: u64,
    pub file_size: u64,
    pub data_offset: u64,
    pub current_timestamp_us: u64,
}

/// What is known of the running replay besides its own state.
#[derive(Debug, Clone, Copy, PartialEq, Eq, Structural)]
pub struct ReplayReadings {
    pub controls: Option<ControlsReading>,
    /// The end of the frame on display.
    pub frame_window_end_us: Option<u64>,
    /// Whether there is a pipeline.
    pub controller_present: bool,
    /// Whether there is one that has stopped.
    pub controller_stopped: bool,
}

impl ReplayReadings {
    pub open spec fn bytes(self) -> u64 {
        match self.controls {
            Some(controls) => controls.bytes_read,
            None => 0,
        }
    }

    pub open spec fn timestamp(self) -> u64 {
        match self.controls {
            Some(controls) => controls.current_timestamp_us,
            None => 0,
        }
    }

    /// The share of the data that was read.
    pub open spec fn share(self) -> Real32 {
        match self.controls {
            Some(controls) => read_share(
                controls.bytes_read as nat,
                data_bytes(controls.file_size, controls.data_offset),
            ),
            None => Real32 { bits: 0 },
        }
    }

    pub fn replay_controller_bytes_read(&self) -> (out: u64)
        ensures
            out == self.bytes(),
    {
        match self.controls {
            Some(controls) => controls.bytes_read,
            None => 0,
        }
    }

    fn current_timestamp(&self) -> (out: u64)
        ensures
            out == self.timestamp(),
    {
        match self.controls {
            Some(controls) => controls.current_timestamp_us,
            None => 0,
        }
    }

    fn byte_share(&self) -> (out: Real32)
        ensures
            out == self.share(),
    {
        match self.controls {
            Some(controls) => current_replay_byte_fraction(
                controls.bytes_read,
                controls.file_size,
                controls.data_offset,
            ),
            None => Real32 { bits: 0 },
        }
    }
}

/// The state of the replay transport.
#[derive(Debug)]
pub struct ReplayState<S> {
    pub info: Option<ReplayFileInfo>,
    pub paused: bool,
    pub finished: bool,
    /// Whether the replay stops at the frame that a seek or a step goes to.
    pub pause_after_seek_frame: bool,
    pub pause_after_seek_target_timestamp_us: Option<u64>,
    /// The place that a seek goes to, until its frame is there.
    pub pending_fraction: Option<Real32>,
    pub speed: Real32,
    pub history: ReplayFrameHistory<S>,
}

/// What is left to be done to the pipeline after a change of the transport.
#[derive(Debug, Clone, Copy, PartialEq, Eq, Structural)]
pub enum ReplayCommand {
    Nothing,
    /// The controls are set to running or to paused.
    SetPaused(bool),
    SetSpeed(Real32),
    /// The file is opened again at a place.
    Reopen { fraction: Real32, desired_paused: bool },
    /// A kept frame is shown.
    Show(usize),
    /// There is no description of the file.
    MetadataMissing,
}

/// Where a replay is opened again.
#[derive(Debug, Clone, Copy, PartialEq, Eq, Structural)]
pub struct ReopenPlan {
    pub fraction: Real32,
    /// The byte within the data, before it is moved to the start of a record.
    pub target_rel: u64,
    pub target_timestamp_us: u64,
    pub desired_paused: bool,
}

/// A sum that stays at the largest number.
pub open spec fn capped_sum(a: nat, b: nat) -> nat {
    if a + b > u64::MAX {
        u64::MAX as nat
    } else {
        a + b
    }
}

fn add_capped(a: u64, b: u64) -> (out: u64)
    ensures
        out == capped_sum(a as nat, b as nat),
{
    match a.checked_add(b) {
        Some(sum) => sum,
        None => u64::MAX,
    }
}

impl<S> ReplayState<S> {
    pub open spec fn wf(self) -> bool {
        self.history.wf()
    }

    /// The state without a replay.
    pub fn closed() -> (out: Self)
        ensures
            out.wf(),
            out.is_closed(),
    {
        ReplayState {
            info: None,
            paused: false,
            finished: false,
            pause_after_seek_frame: false,
            pause_after_seek_target_timestamp_us: None,
            pending_fraction: None,
            speed: Real32 { bits: ONE_BITS_32 },
            history: ReplayFrameHistory::new(),
        }
    }

    /// Whether the transport runs from the start, at the usual speed.
    pub open spec fn is_fresh(self) -> bool {
        &&& !self.paused
        &&& !self.finished
        &&& !self.pause_after_seek_frame
        &&& self.pause_after_seek_target_timestamp_us is None
        &&& self.pending_fraction is None
        &&& self.speed == (Real32 { bits: ONE_BITS_32 })
        &&& self.history.frames@.len() == 0
        &&& self.history.cursor is None
    }

    pub open spec fn is_closed(self) -> bool {
        self.is_fresh() && self.info is None
    }

    /// Begins with a file that was opened.
    pub fn opened(&mut self, info: ReplayFileInfo)
        ensures
            final(self).wf(),
            final(self).is_fresh(),
            final(self).info == Some(info),
    {
        *self = ReplayState::closed();
        self.info = Some(info);
    }

    /// Ends the replay.
    pub fn clear(&mut self)
        ensures
            final(self).wf(),
            final(self).is_closed(),
    {
        *self = ReplayState::closed();
    }

    /// The time that is on display.
    pub open spec fn time(self, readings: ReplayReadings) -> nat {
        match self.info {
            None => 0,
            Some(info) => position_time(
                self.finished,
                self.pending_fraction,
                readings.frame_window_end_us,
                readings.timestamp(),
                info.first_timestamp_us,
                info.total_duration_us,
                readings.share(),
            ),
        }
    }

    pub fn current_replay_time_us(&self, readings: &ReplayReadings) -> (out: u64)
        ensures
            out == self.time(*readings),
    {
        match self.info {
            None => 0,
            Some(info) => replay_time_from_position_sources(
                self.finished,
                self.pending_fraction,
                readings.frame_window_end_us,
                readings.current_timestamp(),
                info.first_timestamp_us,
                info.total_duration_us,
                readings.byte_share(),
            ),
        }
    }

    /// The time of the frame on display, or else of the decoder.
    pub open spec fn displayed_time(self, readings: ReplayReadings) -> Option<nat> {
        match self.info {
            None => None,
            Some(info) => {
                let first = info.first_timestamp_us as nat;
                let total = info.total_duration_us as nat;
                if readings.frame_window_end_us is Some {
                    Some(time_since(readings.frame_window_end_us->0 as nat, first, total))
                } else if readings.timestamp() > 0 {
                    Some(time_since(readings.timestamp() as nat, first, total))
                } else {
                    None
                }
            },
        }
    }

    pub fn replay_displayed_time_us(&self, readings: &ReplayReadings) -> (out: Option<u64>)
        ensures
            out is Some <==> self.displayed_time(*readings) is Some,
            out matches Some(time) ==> time == self.displayed_time(*readings)->0,
    {
        match self.info {
            None => None,
            Some(info) => {
                if let Some(end) = readings.frame_window_end_us {
                    return Some(
                        time_in_replay(end, info.first_timestamp_us, info.total_duration_us),
                    );
                }
                let timestamp: u64 = readings.current_timestamp();
                if timestamp > 0 {
                    Some(time_in_replay(timestamp, info.first_timestamp_us, info.total_duration_us))
                } else {
                    None
                }
            },
        }
    }

    /// The share of the replay that is behind the place on display.
    pub open spec fn fraction(self, readings: ReplayReadings) -> Real32 {
        match self.info {
            None => Real32 { bits: 0 },
            Some(info) => if self.finished {
                Real32 { bits: ONE_BITS_32 }
            } else if self.pending_fraction is Some {
                share_of(self.pending_fraction->0)
            } else if self.displayed_time(readings) is Some {
                Real32 {
                    bits: share_before(
                        self.displayed_time(readings)->0,
                        info.total_duration_us as nat,
                    ) as u32,
                }
            } else {
                readings.share()
            },
        }
    }

    pub fn current_replay_fraction(&self, readings: &ReplayReadings) -> (out: Real32)
        ensures
            out == self.fraction(*readings),
    {
        match self.info {
            None => Real32 { bits: 0 },
            Some(info) => {
                if self.finished {
                    return Real32 { bits: ONE_BITS_32 };
                }
                if let Some(fraction) = self.pending_fraction {
                    return fraction.clamped(Real32 { bits: 0 }, Real32 { bits: ONE_BITS_32 });
                }
                match self.replay_displayed_time_us(readings) {
                    Some(time) => replay_fraction_from_time(time, info.total_duration_us),
                    None => readings.byte_share(),
                }
            },
        }
    }

    pub open spec fn shown(self, mode: AppMode, readings: ReplayReadings) -> ViewerReplayState {
        let duration_us: u64 = match self.info {
            Some(info) => info.total_duration_us,
            None => 0,
        };
        ViewerReplayState {
            active: mode == AppMode::Replaying && duration_us > 0,
            paused: self.paused,
            finished: self.finished,
            stepping: self.pause_after_seek_frame,
            speed: self.speed,
            fraction: self.fraction(readings),
            duration_us,
            time_us: self.time(readings) as u64,
            bytes_read: self.history.displayed_bytes(readings.bytes()),
            data_len: match self.info {
                Some(info) => info.data_len,
                None => 0,
            },
        }
    }

    pub fn viewer_replay_state(&self, mode: AppMode, readings: &ReplayReadings) -> (out:
        ViewerReplayState)
        requires
            self.wf(),
        ensures
            out == self.shown(mode, *readings),
    {
        let duration_us: u64 = match self.info {
            Some(info) => info.total_duration_us,
            None => 0,
        };
        let data_len: u64 = match self.info {
            Some(info) => info.data_len,
            None => 0,
        };
        ViewerReplayState {
            active: mode == AppMode::Replaying && duration_us > 0,
            paused: self.paused,
            finished: self.finished,
            stepping: self.pause_after_seek_frame,
            speed: self.speed,
            fraction: self.current_replay_fraction(readings),
            duration_us,
            time_us: self.current_replay_time_us(readings),
            bytes_read: self.history.bytes_on_display(readings.replay_controller_bytes_read()),
            data_len,
        }
    }

    /// Pauses or resumes. Where an older frame is on display, the file is
    /// opened again at its place to go on from there.
    pub fn set_replay_paused(&mut self, paused: bool, readings: &ReplayReadings) -> (out:
        ReplayCommand)
        requires
            old(self).wf(),
        ensures
            final(self).wf(),
            !paused && old(self).history.overrides() ==> *final(self) == *old(self) && out
                == (ReplayCommand::Reopen {
                fraction: old(self).fraction(*readings),
                desired_paused: false,
            }),
            (paused || !old(self).history.overrides()) && readings.controls is None
                ==> *final(self) == *old(self) && out == ReplayCommand::Nothing,
            (paused || !old(self).history.overrides()) && readings.controls is Some
                ==> *final(self) == (ReplayState {
                paused,
                pause_after_seek_frame: paused && old(self).pause_after_seek_frame,
                ..*old(self)
            }) && out == ReplayCommand::SetPaused(paused),
    {
        if !paused && self.history.has_display_override() {
            return ReplayCommand::Reopen {
                fraction: self.current_replay_fraction(readings),
                desired_paused: false,
            };
        }
        if readings.controls.is_none() {
            return ReplayCommand::Nothing;
        }
        self.paused = paused;
        if !paused {
            self.pause_after_seek_frame = false;
        }
        ReplayCommand::SetPaused(paused)
    }

    pub fn set_replay_speed(&mut self, speed: Real32, readings: &ReplayReadings) -> (out:
        ReplayCommand)
        ensures
            readings.controls is None ==> *final(self) == *old(self) && out
                == ReplayCommand::Nothing,
            readings.controls is Some ==> *final(self) == (ReplayState { speed, ..*old(self) })
                && out == ReplayCommand::SetSpeed(speed),
    {
        if readings.controls.is_none() {
            return ReplayCommand::Nothing;
        }
        self.speed = speed;
        ReplayCommand::SetSpeed(speed)
    }

    /// Goes to a share of the replay. A paused or finished one stays paused.
    pub fn seek_replay(&self, mode: AppMode, fraction: Real32) -> (out: ReplayCommand)
        ensures
            out == (if mode == AppMode::Replaying {
                ReplayCommand::Reopen { fraction, desired_paused: self.paused || self.finished }
            } else {
                ReplayCommand::Nothing
            }),
    {
        if mode != AppMode::Replaying {
            return ReplayCommand::Nothing;
        }
        ReplayCommand::Reopen { fraction, desired_paused: self.paused || self.finished }
    }

    pub fn restart_replay(&self, mode: AppMode) -> (out: ReplayCommand)
        ensures
            out == (if mode == AppMode::Replaying {
                ReplayCommand::Reopen {
                    fraction: Real32 { bits: 0 },
                    desired_paused: self.paused || self.finished,
                }
            } else {
                ReplayCommand::Nothing
            }),
    {
        self.seek_replay(mode, Real32 { bits: 0 })
    }

    /// What a selected row asks for: a paused replay goes to its timestamp.
    pub open spec fn anchor_command(self, mode: AppMode, anchor_us: Option<u64>) -> ReplayCommand {
        if mode == AppMode::Replaying && self.paused && self.info is Some && anchor_us is Some {
            let first = self.info->0.first_timestamp_us;
            let relative: nat = if anchor_us->0 > first {
                (anchor_us->0 - first) as nat
            } else {
                0
            };
            ReplayCommand::Reopen {
                fraction: Real32 {
                    bits: share_before(relative, self.info->0.total_duration_us as nat) as u32,
                },
                desired_paused: true,
            }
        } else {
            ReplayCommand::Nothing
        }
    }

    pub fn seek_to_anchor(&self, mode: AppMode, anchor_us: Option<u64>) -> (out: ReplayCommand)
        ensures
            out == self.anchor_command(mode, anchor_us),
    {
        if mode != AppMode::Replaying || !self.paused {
            return ReplayCommand::Nothing;
        }
        match self.info {
            None => ReplayCommand::Nothing,
            Some(info) => match anchor_us {
                None => ReplayCommand::Nothing,
                Some(anchor) => {
                    let relative: u64 = if anchor > info.first_timestamp_us {
                        anchor - info.first_timestamp_us
                    } else {
                        0
                    };
                    self.seek_replay(
                        mode,
                        replay_fraction_from_time(relative, info.total_duration_us),
                    )
                },
            },
        }
    }

    /// The state with a kept frame on display.
    pub open spec fn showing(self, index: usize, readings: ReplayReadings) -> Self {
        ReplayState {
            pause_after_seek_frame: false,
            pause_after_seek_target_timestamp_us: None,
            pending_fraction: None,
            paused: true,
            finished: !readings.controller_present && index + 1 >= self.history.frames@.len()
                && self.info is Some && readings.bytes() >= self.info->0.data_len,
            history: ReplayFrameHistory { cursor: Some(index), ..self.history },
            ..self
        }
    }

    /// Shows a kept frame, paused. The replay counts as finished where that is
    /// the newest one and the file is read to its end.
    fn show_snapshot(&mut self, index: usize, readings: &ReplayReadings)
        requires
            old(self).wf(),
            index < old(self).history.frames@.len(),
        ensures
            final(self).wf(),
            *final(self) == old(self).showing(index, *readings),
    {
        self.history.cursor = Some(index);
        self.pause_after_seek_frame = false;
        self.pause_after_seek_target_timestamp_us = None;
        self.pending_fraction = None;
        self.paused = true;
        let read_to_end: bool = match self.info {
            Some(info) => readings.replay_controller_bytes_read() >= info.data_len,
            None => false,
        };
        self.finished = !readings.controller_present && !self.history.has_display_override()
            && read_to_end;
    }

    /// The time that a number of steps leads to.
    pub open spec fn step_time(
        self,
        readings: ReplayReadings,
        acq_time_ms: u64,
        steps: int,
    ) -> nat {
        let width = if acq_time_ms * 1000 > u64::MAX {
            u64::MAX as nat
        } else {
            (acq_time_ms * 1000) as nat
        };
        stepped_time(
            self.time(readings),
            width,
            steps,
            match self.info {
                Some(info) => info.total_duration_us as nat,
                None => 0,
            },
        )
    }

    /// Whether a step goes on with the running decoder.
    pub open spec fn steps_on(self, readings: ReplayReadings, steps: int) -> bool {
        steps > 0 && self.paused && !self.finished && readings.controls is Some
            && readings.controller_present && !readings.controller_stopped
    }

    /// Steps through the frames: to one that is kept, or else on with the
    /// decoder, or else by a seek.
    pub fn step_replay(
        &mut self,
        mode: AppMode,
        frame_steps: i64,
        acq_time_ms: u64,
        readings: &ReplayReadings,
    ) -> (out: ReplayCommand)
        requires
            old(self).wf(),
        ensures
            final(self).wf(),
            mode != AppMode::Replaying || frame_steps == 0 ==> *final(self) == *old(self) && out
                == ReplayCommand::Nothing,
            mode == AppMode::Replaying && frame_steps != 0 ==> {
                let kept = history_target(
                    old(self).history.frames@.len(),
                    old(self).history.cursor,
                    frame_steps as int,
                );
                if kept is Some {
                    &&& *final(self) == old(self).showing(kept->0, *readings)
                    &&& out == ReplayCommand::Show(kept->0)
                } else if old(self).info is None {
                    &&& *final(self) == *old(self)
                    &&& out == ReplayCommand::MetadataMissing
                } else {
                    let info = old(self).info->0;
                    let time = old(self).step_time(*readings, acq_time_ms, frame_steps as int);
                    let fraction = Real32 {
                        bits: share_before(time, info.total_duration_us as nat) as u32,
                    };
                    if old(self).steps_on(*readings, frame_steps as int) {
                        &&& *final(self) == (ReplayState {
                            paused: true,
                            finished: false,
                            pause_after_seek_frame: true,
                            pause_after_seek_target_timestamp_us: Some(
                                capped_sum(info.first_timestamp_us as nat, time) as u64,
                            ),
                            pending_fraction: Some(fraction),
                            ..*old(self)
                        })
                        &&& out == ReplayCommand::SetPaused(false)
                    } else {
                        &&& *final(self) == *old(self)
                        &&& out == (ReplayCommand::Reopen {
                            fraction,
                            desired_paused: old(self).paused || old(self).finished,
                        })
                    }
                }
            },
    {
        if mode != AppMode::Replaying || frame_steps == 0 {
            return ReplayCommand::Nothing;
        }
        let kept = replay_history_step_target(
            self.history.frames.len(),
            self.history.cursor,
            frame_steps,
        );
        if let Some(index) = kept {
            self.show_snapshot(index, readings);
            return ReplayCommand::Show(index);
        }
        match self.info {
            None => ReplayCommand::MetadataMissing,
            Some(info) => {
                let width: u64 = match acq_time_ms.checked_mul(1_000) {
                    Some(us) => us,
                    None => u64::MAX,
                };
                let time: u64 = replay_step_target_time_us(
                    self.current_replay_time_us(readings),
                    width,
                    frame_steps,
                    info.total_duration_us,
                );
                let fraction = replay_fraction_from_time(time, info.total_duration_us);
                let active: bool = readings.controls.is_some() && readings.controller_present
                    && !readings.controller_stopped;
                if replay_step_uses_current_controller(
                    frame_steps,
                    self.paused,
                    self.finished,
                    active,
                ) {
                    self.paused = true;
                    self.finished = false;
                    self.pause_after_seek_frame = true;
                    self.pause_after_seek_target_timestamp_us =
                    Some(add_capped(info.first_timestamp_us, time));
                    self.pending_fraction = Some(fraction);
                    ReplayCommand::SetPaused(false)
                } else {
                    self.seek_replay(mode, fraction)
                }
            },
        }
    }

    /// Where the file is opened again for a seek. The kept frames are dropped.
    pub fn plan_reopen(&mut self, fraction: Real32, desired_paused: bool) -> (out: Option<
        ReopenPlan,
    >)
        ensures
            old(self).info is None ==> out is None && *final(self) == *old(self),
            old(self).info matches Some(info) ==> {
                &&& final(self).history.wf()
                &&& final(self).history.frames@.len() == 0
                &&& final(self).history.cursor is None
                &&& *final(self) == (ReplayState { history: final(self).history, ..*old(self) })
                &&& out matches Some(plan) && plan.fraction == share_of(fraction)
                    && plan.target_rel == byte_at(fraction, info.data_len as nat)
                    && plan.target_timestamp_us == capped_sum(
                    info.first_timestamp_us as nat,
                    time_at(fraction, info.total_duration_us as nat),
                ) && plan.desired_paused == desired_paused
            },
    {
        match self.info {
            None => None,
            Some(info) => {
                self.history.clear();
                let target_rel: u64 = replay_byte_from_fraction(fraction, info.data_len);
                let time: u64 = replay_time_from_fraction(fraction, info.total_duration_us);
                Some(
                    ReopenPlan {
                        fraction: fraction.clamped(
                            Real32 { bits: 0 },
                            Real32 { bits: ONE_BITS_32 },
                        ),
                        target_rel,
                        target_timestamp_us: add_capped(info.first_timestamp_us, time),
                        desired_paused,
                    },
                )
            },
        }
    }

    /// The file was opened again.
    pub fn reopened(&mut self, plan: &ReopenPlan)
        ensures
            *final(self) == old(self).after_reopen(*plan),
    {
        self.paused = plan.desired_paused;
        self.finished = false;
        self.pause_after_seek_frame = plan.desired_paused;
        self.pause_after_seek_target_timestamp_us = if plan.desired_paused {
            Some(plan.target_timestamp_us)
        } else {
            None
        };
        self.pending_fraction = Some(plan.fraction);
    }

    /// The file could not be opened again: the replay is over.
    pub fn reopen_failed(&mut self)
        ensures
            *final(self) == (ReplayState {
                finished: true,
                paused: true,
                pending_fraction: None,
                ..*old(self)
            }),
    {
        self.finished = true;
        self.paused = true;
        self.pending_fraction = None;
    }

    /// The file is read to its end.
    pub fn finish_replay(&mut self)
        ensures
            *final(self) == (ReplayState {
                finished: true,
                paused: true,
                pause_after_seek_frame: false,
                pause_after_seek_target_timestamp_us: None,
                pending_fraction: None,
                ..*old(self)
            }),
    {
        self.finished = true;
        self.paused = true;
        self.pause_after_seek_frame = false;
        self.pause_after_seek_target_timestamp_us = None;
        self.pending_fraction = None;
    }
}

/// What is done with the newest frame that the pipeline gave.
#[derive(Debug, Clone, Copy, PartialEq, Eq, Structural)]
pub enum FrameDecision {
    /// It is too early for another frame.
    Skip,
    /// The frame lies before the place that a seek goes to.
    Wait,
    /// The frame is processed, and the controls are paused before if they are
    /// to be.
    Process { pause_controls: bool },
}

/// What is known when a frame arrives.
#[derive(Debug, Clone, Copy, PartialEq, Eq, Structural)]
pub struct FrameArrival {
    pub window_end_us: u64,
    pub external_streaming: bool,
    pub shows_2d: bool,
    pub has_texture: bool,
    pub has_controls: bool,
    /// The milliseconds since a frame was processed, if one was.
    pub since_processed_ms: Option<u64>,
    pub process_interval_ms: u64,
}

impl FrameArrival {
    /// Whether the frame is drawn.
    pub open spec fn draws(self) -> bool {
        !self.external_streaming && self.shows_2d
    }

    pub fn needs_texture(&self) -> (out: bool)
        ensures
            out == self.draws(),
    {
        !self.external_streaming && self.shows_2d
    }
}

impl<S> ReplayState<S> {
    /// Whether a frame comes too early. A view without a picture and a seek
    /// take every frame.
    pub open spec fn too_early(self, arrival: FrameArrival) -> bool {
        &&& !(arrival.draws() && !arrival.has_texture)
        &&& !self.pause_after_seek_frame
        &&& arrival.since_processed_ms matches Some(since) && since < arrival.process_interval_ms
    }

    /// Whether a seek is on the way to a frame that it pauses at.
    pub open spec fn seeks(self, mode: AppMode) -> bool {
        mode == AppMode::Replaying && self.pause_after_seek_frame
    }

    /// What is done with a frame.
    pub open spec fn decision(self, mode: AppMode, arrival: FrameArrival) -> FrameDecision {
        if self.too_early(arrival) {
            FrameDecision::Skip
        } else if self.seeks(mode) && !target_reached(
            self.pause_after_seek_target_timestamp_us,
            arrival.window_end_us,
        ) {
            FrameDecision::Wait
        } else {
            FrameDecision::Process { pause_controls: self.seeks(mode) && arrival.has_controls }
        }
    }

    /// The state after a frame was taken to be processed.
    pub open spec fn processed(self, mode: AppMode) -> Self {
        ReplayState {
            paused: self.paused || self.seeks(mode),
            pause_after_seek_frame: self.pause_after_seek_frame && !self.seeks(mode),
            pause_after_seek_target_timestamp_us: if self.seeks(mode) {
                None
            } else {
                self.pause_after_seek_target_timestamp_us
            },
            pending_fraction: if mode == AppMode::Replaying {
                None
            } else {
                self.pending_fraction
            },
            ..self
        }
    }

    /// Decides on the newest frame. A seek that should end paused lets frames
    /// pass until its place is reached, and pauses there.
    pub fn frame_arrived(&mut self, mode: AppMode, arrival: &FrameArrival) -> (out: FrameDecision)
        ensures
            out == old(self).decision(mode, *arrival),
            *final(self) == (if out is Process {
                old(self).processed(mode)
            } else {
                *old(self)
            }),
    {
        let force: bool = (arrival.needs_texture() && !arrival.has_texture)
            || self.pause_after_seek_frame;
        if !force {
            if let Some(since) = arrival.since_processed_ms {
                if since < arrival.process_interval_ms {
                    return FrameDecision::Skip;
                }
            }
        }
        let seeking: bool = mode == AppMode::Replaying && self.pause_after_seek_frame;
        let reached: bool = replay_seek_target_reached(
            self.pause_after_seek_target_timestamp_us,
            arrival.window_end_us,
        );
        if seeking && !reached {
            return FrameDecision::Wait;
        }
        if seeking {
            self.pause_after_seek_frame = false;
            self.pause_after_seek_target_timestamp_us = None;
            self.paused = true;
        }
        if mode == AppMode::Replaying {
            self.pending_fraction = None;
        }
        FrameDecision::Process { pause_controls: seeking && arrival.has_controls }
    }

    /// Keeps a processed frame of a replay.
    pub fn record_replay_frame_snapshot(
        &mut self,
        mode: AppMode,
        snapshot: ReplayFrameSnapshot<S>,
    )
        requires
            old(self).wf(),
        ensures
            final(self).wf(),
            mode != AppMode::Replaying ==> *final(self) == *old(self),
            mode == AppMode::Replaying ==> {
                &&& *final(self) == (ReplayState { history: final(self).history, ..*old(self) })
                &&& final(self).history.frames@ == (if old(self).history.frames@.len()
                    == REPLAY_FRAME_HISTORY_CAPACITY {
                    old(self).history.frames@.drop_first()
                } else {
                    old(self).history.frames@
                }).push(snapshot)
                &&& final(self).history.cursor == Some(
                    (final(self).history.frames@.len() - 1) as usize,
                )
            },
    {
        if mode == AppMode::Replaying {
            self.history.record(snapshot);
        }
    }
}

impl<S> ReplayState<S> {
    /// The state after the file was opened again.
    pub open spec fn after_reopen(self, plan: ReopenPlan) -> Self {
        ReplayState {
            paused: plan.desired_paused,
            finished: false,
            pause_after_seek_frame: plan.desired_paused,
            pause_after_seek_target_timestamp_us: if plan.desired_paused {
                Some(plan.target_timestamp_us)
            } else {
                None
            },
            pending_fraction: Some(plan.fraction),
            ..self
        }
    }
}

/// A paused seek processes no frame before its place, and the first one that
/// reaches it leaves the replay paused, with nothing pending.
pub proof fn paused_seek_ends_at_its_target<S>(
    before: ReplayState<S>,
    plan: ReopenPlan,
    arrival: FrameArrival,
)
    requires
        plan.desired_paused,
    ensures
        ({
            let seeking = before.after_reopen(plan);
            let decision = seeking.decision(AppMode::Replaying, arrival);
            &&& decision == FrameDecision::Wait <==> arrival.window_end_us
                < plan.target_timestamp_us
            &&& decision is Process <==> arrival.window_end_us >= plan.target_timestamp_us
            &&& seeking.processed(AppMode::Replaying).paused
            &&& !seeking.processed(AppMode::Replaying).pause_after_seek_frame
            &&& seeking.processed(AppMode::Replaying).pending_fraction is None
        }),
{
}

/// A seek in a running replay takes up the first frame that is due, and the
/// replay goes on.
pub proof fn running_seek_goes_on<S>(
    before: ReplayState<S>,
    plan: ReopenPlan,
    arrival: FrameArrival,
)
    requires
        !plan.desired_paused,
    ensures
        ({
            let seeking = before.after_reopen(plan);
            &&& seeking.decision(AppMode::Replaying, arrival) != FrameDecision::Wait
            &&& !seeking.processed(AppMode::Replaying).paused
        }),
{
}

/// Speeds that differ by less than this are the same.
pub const SPEED_STEP_BITS: u32 = 0x3400_0000;

/// Whether a speed is the one that a menu entry stands for.
pub fn replay_speed_matches(speed: Real32, entry: Real32) -> (out: bool)
    ensures
        out == unsigned(minus_of(speed, entry)).lt(Real32 { bits: SPEED_STEP_BITS }),
{
    absolute(minus(speed, entry)).less(Real32 { bits: SPEED_STEP_BITS })
}

// ---------------------------------------------------------------------------
// Laws of the transport
// ---------------------------------------------------------------------------
/// Steps lead as many acquisition times forth or back as were asked for, and
/// stop at the ends of the replay.
pub proof fn steps_lead_to_their_time(current: nat, step: nat, steps: int, total: nat)
    requires
        step > 0,
    ensures
        0 <= current + steps * step <= total ==> stepped_time(current, step, steps, total)
            == current + steps * step,
        current + steps * step < 0 ==> stepped_time(current, step, steps, total) == 0,
        current + steps * step > total ==> stepped_time(current, step, steps, total) == total,
        stepped_time(current, 0, steps, total) == stepped_time(current, 1, steps, total),
{
    assert(steps * 1 == steps) by (nonlinear_arith);
}

/// An acquisition time has a thousand microseconds in each millisecond, and at
/// least one millisecond.
pub proof fn acquisition_times_are_in_microseconds(ms: u64)
    ensures
        0 < ms && ms * 1000 <= u64::MAX ==> acq_time_us(ms) == ms * 1000,
        acq_time_us(0) == 1000,
        acq_time_us(ms) <= u64::MAX,
{
}

/// Kept frames are stepped through one by one, and no step leaves them.
pub proof fn kept_frames_are_stepped_through(len: nat, at: usize, steps: int)
    requires
        at < len <= usize::MAX,
        steps != 0,
    ensures
        0 <= at + steps < len ==> history_target(len, Some(at), steps) == Some(
            (at + steps) as usize,
        ),
        at + steps < 0 || at + steps >= len ==> history_target(len, Some(at), steps) is None,
        history_target(len, None, steps) is None,
        history_target(len, Some(at), 0) is None,
        shows_older_frame(len, Some(at)) <==> at != len - 1,
        !shows_older_frame(len, None),
{
}

/// A frame is at the place of a seek once its window ends there or behind.
pub proof fn seeks_end_at_or_behind_their_place(target: u64, end: u64)
    ensures
        target_reached(Some(target), end) <==> target <= end,
        target_reached(None, end),
{
}

/// The pictures of a camera are live while they are previewed or recorded.
pub proof fn only_the_camera_is_live(mode: AppMode)
    ensures
        is_live(mode) <==> mode is Previewing || mode is Recording,
        mode is Replaying || mode is Idle ==> !is_live(mode),
{
}

/// A selected row moves a replay only while it is paused, and then to the time
/// of the row, counted from the first event.
pub proof fn rows_move_paused_replays_only<S>(state: ReplayState<S>, mode: AppMode, anchor: u64)
    ensures
        !state.paused ==> state.anchor_command(mode, Some(anchor)) is Nothing,
        !(mode is Replaying) ==> state.anchor_command(mode, Some(anchor)) is Nothing,
        state.info is None ==> state.anchor_command(mode, Some(anchor)) is Nothing,
        state.anchor_command(mode, None) is Nothing,
        mode is Replaying && state.paused && (state.info matches Some(info)
            && info.first_timestamp_us <= anchor) ==> state.anchor_command(mode, Some(anchor)) == (
        ReplayCommand::Reopen {
            fraction: Real32 {
                bits: share_before(
                    (anchor - state.info->0.first_timestamp_us) as nat,
                    state.info->0.total_duration_us as nat,
                ) as u32,
            },
            desired_paused: true,
        }),
{
}

/// A kept frame is shown paused, and ends every seek. The replay is finished
/// there only where it is the last frame of a file that was read to its end.
pub proof fn kept_frames_are_shown_paused<S>(
    state: ReplayState<S>,
    index: usize,
    readings: ReplayReadings,
)
    ensures
        ({
            let after = state.showing(index, readings);
            &&& after.paused
            &&& !after.pause_after_seek_frame
            &&& after.pending_fraction is None
            &&& after.history.cursor == Some(index)
            &&& after.history.frames == state.history.frames
            &&& after.info == state.info
            &&& after.speed == state.speed
            &&& index + 1 < state.history.frames@.len() ==> !after.finished
            &&& readings.controller_present ==> !after.finished
            &&& (state.info matches Some(info) && readings.bytes() < info.data_len)
                ==> !after.finished
            &&& !readings.controller_present && index + 1 == state.history.frames@.len() && (
            state.info matches Some(info) && readings.bytes() >= info.data_len) ==> after.finished
        }),
{
}

/// A frame is skipped while it is too early; a view without a picture and a
/// seek take every frame.
pub proof fn frames_wait_for_their_interval<S>(
    state: ReplayState<S>,
    mode: AppMode,
    arrival: FrameArrival,
)
    ensures
        arrival.since_processed_ms is None ==> !(state.decision(mode, arrival) is Skip),
        (arrival.since_processed_ms matches Some(since) && since >= arrival.process_interval_ms)
            ==> !(state.decision(mode, arrival) is Skip),
        state.pause_after_seek_frame ==> !(state.decision(mode, arrival) is Skip),
        !arrival.external_streaming && arrival.shows_2d && !arrival.has_texture ==> !(
        state.decision(mode, arrival) is Skip),
        (arrival.since_processed_ms matches Some(since) && since < arrival.process_interval_ms)
            && !state.pause_after_seek_frame && (arrival.has_texture || arrival.external_streaming
            || !arrival.shows_2d) ==> state.decision(mode, arrival) is Skip,
        !state.pause_after_seek_frame ==> !(state.decision(mode, arrival) is Wait),
        !state.pause_after_seek_frame && state.decision(mode, arrival) is Process
            ==> state.decision(mode, arrival) == (FrameDecision::Process { pause_controls: false }),
{
}

/// One step of the transport leads on by the acquisition time, and one back by
/// as much, within the replay.
pub proof fn steps_are_as_long_as_the_acquisition<S>(
    state: ReplayState<S>,
    readings: ReplayReadings,
    acq_time_ms: u64,
    info: ReplayFileInfo,
)
    requires
        state.info == Some(info),
        0 < acq_time_ms,
        acq_time_ms * 1_000 <= u64::MAX,
        state.time(readings) <= info.total_duration_us,
    ensures
        state.time(readings) + 1_000 * acq_time_ms <= info.total_duration_us ==> state.step_time(
            readings,
            acq_time_ms,
            1,
        ) == state.time(readings) + 1_000 * acq_time_ms,
        state.time(readings) >= 1_000 * acq_time_ms ==> state.step_time(readings, acq_time_ms, -1)
            == state.time(readings) - 1_000 * acq_time_ms,
        state.step_time(readings, acq_time_ms, 0) == state.time(readings),
{
}

/// A step goes on with the decoder only forwards, in a paused replay that is
/// not at its end and whose decoder runs.
pub proof fn only_paused_replays_step_on<S>(
    state: ReplayState<S>,
    readings: ReplayReadings,
    steps: int,
)
    ensures
        state.steps_on(readings, steps) ==> steps > 0 && state.paused && !state.finished
            && readings.controller_present && !readings.controller_stopped,
        steps <= 0 ==> !state.steps_on(readings, steps),
        forall|a: nat, b: nat|
            #![trigger capped_sum(a, b)]
            capped_sum(a, b) <= u64::MAX && capped_sum(a, b) <= a + b && (a + b <= u64::MAX
                ==> capped_sum(a, b) == a + b),
{
}

/// A replay that was opened again is not at its end, waits for the frame that
/// was asked for, and stops there if it is to be paused. The file and the speed
/// stay.
pub proof fn reopened_replays_go_to_their_place<S>(state: ReplayState<S>, plan: ReopenPlan)
    ensures
        ({
            let after = state.after_reopen(plan);
            &&& !after.finished
            &&& after.paused == plan.desired_paused
            &&& after.pause_after_seek_frame == plan.desired_paused
            &&& plan.desired_paused ==> after.pause_after_seek_target_timestamp_us == Some(
                plan.target_timestamp_us,
            )
            &&& !plan.desired_paused ==> after.pause_after_seek_target_timestamp_us is None
            &&& after.pending_fraction == Some(plan.fraction)
            &&& after.info == state.info
            &&& after.speed == state.speed
            &&& after.history == state.history
        }),
{
}

/// Without a file the time on display is zero, and a closed replay is a fresh
/// one without a file, which runs at the usual speed.
pub proof fn closed_replays_show_no_time<S>(state: ReplayState<S>, readings: ReplayReadings)
    ensures
        state.info is None ==> state.time(readings) == 0,
        state.is_closed() ==> state.info is None && !state.paused && !state.finished
            && state.pending_fraction is None && state.history.frames@.len() == 0
            && state.history.cursor is None && state.speed == (Real32 { bits: 0x3f80_0000 })
            && !state.pause_after_seek_frame && state.pause_after_seek_target_timestamp_us is None,
{
}

/// The share of a replay on display: all of it at its end, the one that is
/// asked for while it is sought, else that of the frame on display, else that
/// of the decoder, and none without a file.
pub proof fn shares_are_those_on_display<S>(
    state: ReplayState<S>,
    readings: ReplayReadings,
    info: ReplayFileInfo,
)
    ensures
        state.info is None ==> state.fraction(readings) == (Real32 { bits: 0 }),
        state.info == Some(info) && state.finished ==> state.fraction(readings) == (Real32 {
            bits: 0x3f80_0000,
        }),
        state.info == Some(info) && !state.finished ==> (state.pending_fraction matches Some(share)
            ==> state.fraction(readings) == share_of(share)),
        state.info == Some(info) && !state.finished && state.pending_fraction is None
            && readings.frame_window_end_us is None && readings.timestamp() == 0 ==> state.fraction(
            readings,
        ) == readings.share(),
        state.info == Some(info) && !state.finished && state.pending_fraction is None ==> (
        readings.frame_window_end_us matches Some(end) ==> state.fraction(readings).bits
            == share_before(
            time_since(
                end as nat,
                info.first_timestamp_us as nat,
                info.total_duration_us as nat,
            ),
            info.total_duration_us as nat,
        ) as u32),
{
}

/// The viewer shows a transport in a replay that has a length, and only there.
pub proof fn transports_are_shown_in_replays<S>(
    state: ReplayState<S>,
    mode: AppMode,
    readings: ReplayReadings,
)
    ensures
        state.shown(mode, readings).active ==> mode is Replaying && state.info is Some,
        mode is Replaying ==> (state.info matches Some(info) ==> (state.shown(
            mode,
            readings,
        ).active <==> info.total_duration_us > 0)),
        state.info matches Some(info) ==> state.shown(mode, readings).duration_us
            == info.total_duration_us && state.shown(mode, readings).data_len == info.data_len,
        state.shown(mode, readings).paused == state.paused,
        state.shown(mode, readings).finished == state.finished,
        state.shown(mode, readings).stepping == state.pause_after_seek_frame,
        state.shown(mode, readings).speed == state.speed,
        state.shown(mode, readings).fraction == state.fraction(readings),
{
}

} // verus!
