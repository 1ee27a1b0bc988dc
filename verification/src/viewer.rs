//! What follows from what a viewer reports, and from the keys of an
//! investigation.
use crate::binary32::{
    bits_to_24, whole_32, whole_32_parts, whole_numbers_keep_order_32, HALF_BITS_32,
};
use crate::binary64::{Real32, ONE_BITS_32};
use crate::dataset_cache::HostDatasetCacheEntry;
use crate::external_tools::ExternalToolStatus;
use crate::inspection_3d::{
    first_with_key, no_point_with_key, Investigation3dScene, Investigation3dState, Position3,
};
use crate::investigation::{or_default, InvestigationLayout, InvestigationState};
use crate::lists::two_lists_hold;
use crate::registry::ResolvedHostViewRegistry;
use crate::related::{anchor_of, anchor_of_row};
use crate::replay::{AppMode, ReplayCommand, ReplayState};
use crate::rows::{sensor_area, AnalysisRoi, RoiConfig, StableRowKey};
use crate::scene::sync_active_analysis_roi;
use crate::text_map::TextMap;
use crate::single::{
    halves_and_roots_are_exact, minus, minus_of, opposite, plus, plus_of, quotient, quotient_of, times,
    times_of, whole_numbers_are_calculated_exactly,
};
use vstd::arithmetic::power2::lemma2_to64;
use vstd::prelude::*;

verus! {

/// What was done in a viewer.
#[derive(Debug)]
pub struct ViewerOutput {
    pub needs_preview_refresh: bool,
    pub popup_toggled: bool,
    pub new_roi: Option<RoiConfig>,
    pub return_from_external: bool,
    pub mask_hotpixels_clicked: bool,
    pub replay_toggle_pause: bool,
    pub replay_restart: bool,
    pub replay_stop: bool,
    pub replay_step_frames: Option<i64>,
    pub replay_seek_to: Option<Real32>,
    pub replay_set_speed: Option<Real32>,
    pub investigation_select_row: Option<StableRowKey>,
    pub investigation_hover_row: Option<StableRowKey>,
}

/// What is to be done for it.
#[derive(Debug)]
pub enum ViewerStep {
    OpenPopup,
    ClosePopup,
    /// The camera reads another region. Outside of a replay the settings are
    /// then to be applied.
    SetRoi { roi: RoiConfig, mark_dirty: bool },
    DisconnectTool,
    MaskHotpixels,
    TogglePause,
    Restart,
    Stop,
    StepFrames(i64),
    SeekTo(Real32),
    SetSpeed(Real32),
    /// A row is selected, and a paused replay goes to its time.
    SelectRow(StableRowKey),
    Hover(Option<StableRowKey>),
    RefreshPreview,
}

/// One step, or none.
pub open spec fn maybe(step: Option<ViewerStep>) -> Seq<ViewerStep> {
    match step {
        Some(step) => seq![step],
        None => Seq::empty(),
    }
}

/// A step that is wanted.
pub open spec fn when(wanted: bool, step: ViewerStep) -> Option<ViewerStep> {
    if wanted {
        Some(step)
    } else {
        None
    }
}

/// The steps that come first: the window, the camera and the mask.
pub open spec fn session_steps(
    output: ViewerOutput,
    from_popup: bool,
    popup_open: bool,
    mode: AppMode,
) -> Seq<ViewerStep> {
    maybe(
        when(
            output.popup_toggled,
            if from_popup || popup_open {
                ViewerStep::ClosePopup
            } else {
                ViewerStep::OpenPopup
            },
        ),
    ) + maybe(
        match output.new_roi {
            Some(roi) => Some(
                ViewerStep::SetRoi { roi, mark_dirty: mode != AppMode::Replaying },
            ),
            None => None,
        },
    ) + maybe(when(output.return_from_external, ViewerStep::DisconnectTool)) + maybe(
        when(output.mask_hotpixels_clicked, ViewerStep::MaskHotpixels),
    )
}

/// The steps of the replay.
pub open spec fn replay_steps(output: ViewerOutput) -> Seq<ViewerStep> {
    maybe(when(output.replay_toggle_pause, ViewerStep::TogglePause)) + maybe(
        when(output.replay_restart, ViewerStep::Restart),
    ) + maybe(when(output.replay_stop, ViewerStep::Stop)) + maybe(
        match output.replay_step_frames {
            Some(frames) => Some(ViewerStep::StepFrames(frames)),
            None => None,
        },
    ) + maybe(
        match output.replay_seek_to {
            Some(fraction) => Some(ViewerStep::SeekTo(fraction)),
            None => None,
        },
    ) + maybe(
        match output.replay_set_speed {
            Some(speed) => Some(ViewerStep::SetSpeed(speed)),
            None => None,
        },
    )
}

/// The steps that come last: the rows, and the picture.
pub open spec fn row_steps(output: ViewerOutput) -> Seq<ViewerStep> {
    maybe(
        match output.investigation_select_row {
            Some(row) => Some(ViewerStep::SelectRow(row)),
            None => None,
        },
    ) + maybe(Some(ViewerStep::Hover(output.investigation_hover_row))) + maybe(
        when(output.needs_preview_refresh, ViewerStep::RefreshPreview),
    )
}

fn push_maybe(steps: &mut Vec<ViewerStep>, step: Option<ViewerStep>)
    ensures
        final(steps)@ == old(steps)@ + maybe(step),
{
    let ghost before = steps@;
    let ghost wanted = maybe(step);
    match step {
        Some(step) => {
            steps.push(step);
            assert(steps@ =~= before + wanted);
        },
        None => {
            assert(steps@ =~= before + wanted);
        },
    }
}

fn push_when(steps: &mut Vec<ViewerStep>, wanted: bool, step: ViewerStep)
    ensures
        final(steps)@ == old(steps)@ + maybe(when(wanted, step)),
{
    if wanted {
        push_maybe(steps, Some(step));
    } else {
        push_maybe(steps, None);
    }
}

fn session_step_list(
    output: &ViewerOutput,
    from_popup: bool,
    popup_open: bool,
    mode: AppMode,
) -> (out: Vec<ViewerStep>)
    ensures
        out@ == session_steps(*output, from_popup, popup_open, mode),
{
    let mut out: Vec<ViewerStep> = Vec::new();
    let toggle = if from_popup || popup_open {
        ViewerStep::ClosePopup
    } else {
        ViewerStep::OpenPopup
    };
    let ghost first = maybe(when(output.popup_toggled, toggle));
    push_when(&mut out, output.popup_toggled, toggle);
    assert(out@ =~= first);
    push_maybe(
        &mut out,
        match output.new_roi {
            Some(roi) => Some(ViewerStep::SetRoi { roi, mark_dirty: mode != AppMode::Replaying }),
            None => None,
        },
    );
    push_when(&mut out, output.return_from_external, ViewerStep::DisconnectTool);
    push_when(&mut out, output.mask_hotpixels_clicked, ViewerStep::MaskHotpixels);
    out
}

fn replay_step_list(output: &ViewerOutput) -> (out: Vec<ViewerStep>)
    ensures
        out@ == replay_steps(*output),
{
    let mut out: Vec<ViewerStep> = Vec::new();
    push_when(&mut out, output.replay_toggle_pause, ViewerStep::TogglePause);
    assert(out@ =~= maybe(when(output.replay_toggle_pause, ViewerStep::TogglePause)));
    push_when(&mut out, output.replay_restart, ViewerStep::Restart);
    push_when(&mut out, output.replay_stop, ViewerStep::Stop);
    push_maybe(
        &mut out,
        match output.replay_step_frames {
            Some(frames) => Some(ViewerStep::StepFrames(frames)),
            None => None,
        },
    );
    push_maybe(
        &mut out,
        match output.replay_seek_to {
            Some(fraction) => Some(ViewerStep::SeekTo(fraction)),
            None => None,
        },
    );
    push_maybe(
        &mut out,
        match output.replay_set_speed {
            Some(speed) => Some(ViewerStep::SetSpeed(speed)),
            None => None,
        },
    );
    out
}

fn row_step_list(output: ViewerOutput) -> (out: Vec<ViewerStep>)
    ensures
        out@ == row_steps(output),
{
    let ghost all = row_steps(output);
    let mut out: Vec<ViewerStep> = Vec::new();
    let select: Option<ViewerStep> = match output.investigation_select_row {
        Some(row) => Some(ViewerStep::SelectRow(row)),
        None => None,
    };
    let ghost first = maybe(select);
    push_maybe(&mut out, select);
    assert(out@ =~= first);
    push_maybe(&mut out, Some(ViewerStep::Hover(output.investigation_hover_row)));
    push_when(&mut out, output.needs_preview_refresh, ViewerStep::RefreshPreview);
    assert(out@ == all);
    out
}

/// What is done for what a viewer reports, in order.
pub fn handle_viewer_output(
    output: ViewerOutput,
    from_popup: bool,
    popup_open: bool,
    mode: AppMode,
) -> (out: Vec<ViewerStep>)
    ensures
        out@ == session_steps(output, from_popup, popup_open, mode) + replay_steps(output)
            + row_steps(output),
{
    let mut out = session_step_list(&output, from_popup, popup_open, mode);
    let mut replay = replay_step_list(&output);
    let mut rows = row_step_list(output);
    out.append(&mut replay);
    out.append(&mut rows);
    out
}

/// A paused replay follows a selected row to its time.
pub fn maybe_auto_seek_to_row<S>(
    replay: &ReplayState<S>,
    mode: AppMode,
    registry: &ResolvedHostViewRegistry,
    cache: &TextMap<HostDatasetCacheEntry>,
    key: &StableRowKey,
) -> (out: ReplayCommand)
    ensures
        out == replay.anchor_command(mode, anchor_of(registry.model(), *cache, key.pair())),
{
    replay.seek_to_anchor(mode, anchor_of_row(registry, cache, key))
}

/// What is refreshed after a change of how the preview is drawn.
#[derive(Debug, Clone, Copy, PartialEq, Eq, Structural)]
pub struct PreviewRefresh {
    pub histogram: bool,
    pub texture: bool,
}

pub fn refresh_preview_if_needed(
    settings_changed: bool,
    layout: InvestigationLayout,
    has_frame: bool,
    mode: AppMode,
    external_streaming: bool,
) -> (out: PreviewRefresh)
    ensures
        out.histogram == (settings_changed && layout != InvestigationLayout::Inspection3dOnly
            && has_frame),
        out.texture == (out.histogram && mode != AppMode::Idle && !external_streaming),
{
    let histogram: bool = settings_changed && layout.shows_2d() && has_frame;
    PreviewRefresh {
        histogram,
        texture: histogram && mode != AppMode::Idle && !external_streaming,
    }
}

/// What a viewer wants to know of the brightness of a frame.
#[derive(Debug, Clone, Copy, PartialEq, Eq, Structural)]
pub enum PreviewHistogramRequest {
    Nothing,
    AutoContrast,
    Full,
}

/// Where a histogram comes from.
#[derive(Debug, Clone, Copy, PartialEq, Eq, Structural)]
pub enum HistogramSource {
    /// None is wanted.
    Skipped,
    /// The renderer computed it.
    Renderer,
    /// The frame came with it.
    Frame,
    /// Only the brightest value is computed.
    BrightestValue,
    /// It is computed from the frame.
    Computed,
}

/// What the renderer said to a request: whether it computed a histogram, or
/// why it could not.
#[derive(Debug)]
pub enum RendererHistogram {
    Computed,
    Unsupported,
    Failed(String),
}

/// Where the histogram of a frame comes from, and what is told where the
/// renderer failed.
pub fn update_preview_histogram_from_frame(
    request: PreviewHistogramRequest,
    renderer: RendererHistogram,
    frame_has_histogram: bool,
) -> (out: (HistogramSource, Option<String>))
    ensures
        out.0 == (match request {
            PreviewHistogramRequest::Nothing => HistogramSource::Skipped,
            PreviewHistogramRequest::AutoContrast => if renderer is Computed {
                HistogramSource::Renderer
            } else if frame_has_histogram {
                HistogramSource::Frame
            } else {
                HistogramSource::BrightestValue
            },
            PreviewHistogramRequest::Full => if renderer is Computed {
                HistogramSource::Renderer
            } else {
                HistogramSource::Computed
            },
        }),
        out.1 is Some <==> request != PreviewHistogramRequest::Nothing && renderer is Failed,
        out.1 matches Some(notice) ==> (renderer matches RendererHistogram::Failed(error)
            && notice@
            == "WGPU histogram computation failed; using the CPU histogram fallback instead: "@
            + error@),
{
    if request == PreviewHistogramRequest::Nothing {
        return (HistogramSource::Skipped, None);
    }
    let computed: bool = matches!(&renderer, RendererHistogram::Computed);
    let notice: Option<String> = match renderer {
        RendererHistogram::Failed(error) => {
            let mut notice =
                "WGPU histogram computation failed; using the CPU histogram fallback instead: "
                .to_owned();
            notice.append(error.as_str());
            Some(notice)
        },
        _ => None,
    };
    let source = if computed {
        HistogramSource::Renderer
    } else if request == PreviewHistogramRequest::Full {
        HistogramSource::Computed
    } else if frame_has_histogram {
        HistogramSource::Frame
    } else {
        HistogramSource::BrightestValue
    };
    (source, notice)
}

/// What follows when a frame could not be drawn: the processor takes over from
/// the graphics card, and its own failures are shown.
#[derive(Debug)]
pub enum RenderFailure {
    FallBack { notice: String },
    Fail { error: String },
}

pub fn preview_render_failed(error: &str, on_graphics_card: bool) -> (out: RenderFailure)
    ensures
        on_graphics_card ==> (out matches RenderFailure::FallBack { notice } && notice@
            == "WGPU preview renderer failed at runtime and was replaced with the CPU fallback: "@
            + error@),
        !on_graphics_card ==> (out matches RenderFailure::Fail { error: text } && text@
            == "preview render failed: "@ + error@),
{
    if on_graphics_card {
        let mut notice =
            "WGPU preview renderer failed at runtime and was replaced with the CPU fallback: "
            .to_owned();
        notice.append(error);
        RenderFailure::FallBack { notice }
    } else {
        let mut text = "preview render failed: ".to_owned();
        text.append(error);
        RenderFailure::Fail { error: text }
    }
}

/// Whether the menu offers to end a connection rather than to begin one.
pub fn offers_disconnect(status: &ExternalToolStatus) -> (out: bool)
    ensures
        out == (status is Streaming || status is Connecting),
{
    matches!(status, ExternalToolStatus::Streaming | ExternalToolStatus::Connecting)
}

/// A layout that can be shown: without a graphics card there is no 3D view.
pub open spec fn possible_layout(layout: InvestigationLayout, graphics_card: bool) ->
    InvestigationLayout {
    if graphics_card {
        layout
    } else {
        InvestigationLayout::Preview2dOnly
    }
}

pub fn set_active_investigation_layout(
    state: &mut InvestigationState,
    layout: InvestigationLayout,
    graphics_card: bool,
)
    ensures
        *final(state) == (InvestigationState {
            layout: possible_layout(layout, graphics_card),
            ..*old(state)
        }),
{
    state.layout = if graphics_card {
        layout
    } else {
        InvestigationLayout::Preview2dOnly
    };
}

/// The layouts that the menu offers.
pub fn layout_enabled(layout: InvestigationLayout, graphics_card: bool) -> (out: bool)
    ensures
        out == (possible_layout(layout, graphics_card) == layout),
{
    graphics_card || layout == InvestigationLayout::Preview2dOnly
}

/// The keys that were pressed.
#[derive(Debug, Clone, Copy, PartialEq, Eq, Structural)]
pub struct ShortcutKeys {
    pub layout_1: bool,
    pub layout_2: bool,
    pub layout_3: bool,
    pub toggle_link: bool,
    pub clear_selection: bool,
    pub focus_selection: bool,
}

/// What the keys asked for besides changes of the investigation.
#[derive(Debug, Clone, Copy, PartialEq, Eq, Structural)]
pub struct ShortcutOutcome {
    pub repaint: bool,
    /// Whether the layout was set, which ends a selection in the viewer.
    pub layout_set: bool,
    /// The point that the camera looks at now.
    pub focused: Option<Position3>,
}

/// The layout after the keys: the last one that was asked for.
pub open spec fn layout_after(
    layout: InvestigationLayout,
    keys: ShortcutKeys,
    graphics_card: bool,
) -> InvestigationLayout {
    if keys.layout_3 {
        possible_layout(InvestigationLayout::Inspection3dOnly, graphics_card)
    } else if keys.layout_2 {
        possible_layout(InvestigationLayout::Split2d3d, graphics_card)
    } else if keys.layout_1 {
        InvestigationLayout::Preview2dOnly
    } else {
        layout
    }
}

/// The camera, turned to a point.
pub open spec fn looking_at(camera: Investigation3dState, target: Position3) ->
    Investigation3dState {
    Investigation3dState {
        target,
        distance: camera.distance.within(
            Real32 { bits: 0x4080_0000 },
            Real32 { bits: 0x41c0_0000 },
        ),
        ..camera
    }
}

pub fn handle_investigation_shortcuts(
    state: &mut InvestigationState,
    camera: &mut Investigation3dState,
    keys: ShortcutKeys,
    scene: &Investigation3dScene,
    graphics_card: bool,
    sensor_roi: RoiConfig,
    annotation: Option<AnalysisRoi>,
) -> (out: ShortcutOutcome)
    requires
        old(state).wf(),
    ensures
        final(state).wf(),
        final(state).layout == layout_after(old(state).layout, keys, graphics_card),
        out.layout_set == (keys.layout_1 || keys.layout_2 || keys.layout_3),
        final(state).link_roi_between_2d_and_3d == (old(state).link_roi_between_2d_and_3d
            != keys.toggle_link),
        final(state).active_analysis_roi == (if !keys.toggle_link {
            old(state).active_analysis_roi
        } else if old(state).link_roi_between_2d_and_3d {
            None
        } else {
            Some(or_default(annotation, sensor_area(sensor_roi)))
        }),
        keys.clear_selection ==> final(state).selected_rows.items().len() == 0
            && final(state).hovered_row is None,
        !keys.clear_selection ==> final(state).selected_rows == old(state).selected_rows
            && final(state).hovered_row == old(state).hovered_row,
        final(state).split_ratio == old(state).split_ratio,
        final(state).camera_focus_target == (match out.focused {
            Some(target) => Some(target),
            None => old(state).camera_focus_target,
        }),
        final(state).focused_layers == old(state).focused_layers,
        final(state).table_views == old(state).table_views,
        final(state).layer_visibility == old(state).layer_visibility,
        final(state).layer_styles == old(state).layer_styles,
        out.focused is None ==> *final(camera) == *old(camera) && (!keys.focus_selection
            || keys.clear_selection || old(state).selected_rows.items().len() == 0
            || no_point_with_key(
            scene.all_points(),
            old(state).selected_rows.items()[0].pair(),
        )),
        out.focused matches Some(target) ==> {
            &&& keys.focus_selection && !keys.clear_selection
            &&& old(state).selected_rows.items().len() > 0
            &&& exists|i: int| #[trigger]
                first_with_key(
                    scene.all_points(),
                    old(state).selected_rows.items()[0].pair(),
                    i,
                ) && scene.all_points()[i].position == target
            &&& *final(camera) == looking_at(*old(camera), target)
        },
        out.repaint == (out.layout_set || keys.toggle_link || keys.clear_selection
            || out.focused is Some),
{
    if keys.layout_1 {
        set_active_investigation_layout(state, InvestigationLayout::Preview2dOnly, graphics_card);
    }
    if keys.layout_2 {
        set_active_investigation_layout(state, InvestigationLayout::Split2d3d, graphics_card);
    }
    if keys.layout_3 {
        set_active_investigation_layout(
            state,
            InvestigationLayout::Inspection3dOnly,
            graphics_card,
        );
    }
    let layout_set: bool = keys.layout_1 || keys.layout_2 || keys.layout_3;
    if keys.toggle_link {
        state.link_roi_between_2d_and_3d = !state.link_roi_between_2d_and_3d;
        sync_active_analysis_roi(state, sensor_roi, annotation);
    }
    if keys.clear_selection {
        state.clear_selection();
        state.hovered_row = None;
    }
    let mut focused: Option<Position3> = None;
    if keys.focus_selection {
        if let Some(selected) = state.primary_selection() {
            focused = scene.scene_point_for_selection(selected);
        }
    }
    if let Some(target) = focused {
        state.camera_focus_target = Some(target);
        camera.focus_on(target);
    }
    ShortcutOutcome {
        repaint: layout_set || keys.toggle_link || keys.clear_selection || focused.is_some(),
        layout_set,
        focused,
    }
}

/// The place of the pixel under the pointer among those of a frame, where its
/// time is asked for.
pub fn time_surface_index(
    shows_time_surface: bool,
    hover_sensor: Option<(u16, u16)>,
    frame_width: Option<u16>,
) -> (out: Option<usize>)
    ensures
        out == (if shows_time_surface && hover_sensor is Some && frame_width is Some {
            let width: int = if frame_width->0 == 0 {
                1
            } else {
                frame_width->0 as int
            };
            let (x, y) = hover_sensor.unwrap();
            Some((y * width + x) as usize)
        } else {
            None
        }),
{
    if !shows_time_surface {
        return None;
    }
    match (hover_sensor, frame_width) {
        (Some((x, y)), Some(width)) => {
            let columns: usize = if width == 0 {
                1
            } else {
                width as usize
            };
            proof {
                assert(y * columns <= 0xffff * 0xffff) by (nonlinear_arith)
                    requires
                        0 <= y <= 0xffff,
                        0 <= columns <= 0xffff,
                ;
            }
            Some(y as usize * columns + x as usize)
        },
        _ => None,
    }
}

/// The width that is both available and visible.
pub fn clipped_ui_width(available_width: Real32, clip_width: Real32) -> (out: Real32)
    ensures
        out == available_width.smaller_of(clip_width).larger_of(Real32 { bits: 0 }),
{
    available_width.smaller(clip_width).larger(Real32 { bits: 0 })
}

/// The shares of the width between which the border of two panes can be
/// moved: each pane keeps its smallest width, or both get half of it.
pub open spec fn split_bounds(usable_width: Real32, min_pane_width: Real32) -> (Real32, Real32) {
    let zero = Real32 { bits: 0 };
    let half = Real32 { bits: HALF_BITS_32 };
    let share = quotient_of(min_pane_width, usable_width).within(zero, half);
    if usable_width.le(zero) {
        (half, half)
    } else {
        (share, minus_of(Real32 { bits: ONE_BITS_32 }, share))
    }
}

pub fn investigation_split_ratio_bounds(usable_width: Real32, min_pane_width: Real32) -> (out: (
    Real32,
    Real32,
))
    ensures
        out == split_bounds(usable_width, min_pane_width),
{
    let zero = Real32 { bits: 0 };
    let half = Real32 { bits: HALF_BITS_32 };
    if usable_width.at_most(zero) {
        return (half, half);
    }
    let share = quotient(min_pane_width, usable_width).clamped(zero, half);
    (share, minus(Real32 { bits: ONE_BITS_32 }, share))
}

/// The patterns of 12, 40 and 280: the width of the border between two panes,
/// and the widths that a pane keeps in a small and in a large window.
pub const SPLIT_HANDLE_BITS: u32 = 0x4140_0000;

pub const SMALL_PANE_BITS: u32 = 0x4220_0000;

pub const LARGE_PANE_BITS: u32 = 0x438c_0000;

/// The width that two panes share.
pub open spec fn shared_width(full_width: Real32) -> Real32 {
    minus_of(full_width, Real32 { bits: SPLIT_HANDLE_BITS }).larger_of(
        Real32 { bits: ONE_BITS_32 },
    )
}

/// The smallest width of a pane.
pub open spec fn smallest_pane(usable_width: Real32) -> Real32 {
    let small = Real32 { bits: SMALL_PANE_BITS };
    (Real32 { bits: LARGE_PANE_BITS }).smaller_of(
        times_of(
            minus_of(usable_width, small).larger_of(small),
            Real32 { bits: HALF_BITS_32 },
        ),
    )
}

/// A width that leaves room for both panes.
pub open spec fn with_room(width: Real32, usable_width: Real32) -> Real32 {
    let least = smallest_pane(usable_width);
    width.within(least, minus_of(usable_width, least))
}

/// The width of the left one of two panes.
pub open spec fn left_pane(full_width: Real32, split_ratio: Real32) -> Real32 {
    let usable = shared_width(full_width);
    let bounds = split_bounds(usable, smallest_pane(usable));
    with_room(times_of(usable, split_ratio.within(bounds.0, bounds.1)), usable)
}

/// The share of the left pane after its border was dragged.
pub open spec fn dragged_share(full_width: Real32, split_ratio: Real32, moved: Real32) -> Real32 {
    let usable = shared_width(full_width);
    let bounds = split_bounds(usable, smallest_pane(usable));
    let left = with_room(plus_of(left_pane(full_width, split_ratio), moved), usable);
    quotient_of(left, usable).within(bounds.0, bounds.1)
}

fn limited(x: Real32, low: Real32, high: Real32) -> (out: Real32)
    ensures
        out == x.within(low, high),
{
    if x.less(low) {
        low
    } else if high.less(x) {
        high
    } else {
        x
    }
}

fn find_shared_width(full_width: Real32) -> (out: Real32)
    ensures
        out == shared_width(full_width),
{
    minus(full_width, Real32 { bits: SPLIT_HANDLE_BITS }).larger(Real32 { bits: ONE_BITS_32 })
}

fn find_smallest_pane(usable_width: Real32) -> (out: Real32)
    ensures
        out == smallest_pane(usable_width),
{
    let small = Real32 { bits: SMALL_PANE_BITS };
    (Real32 { bits: LARGE_PANE_BITS }).smaller(
        times(minus(usable_width, small).larger(small), Real32 { bits: HALF_BITS_32 }),
    )
}

/// Whether there is room for two panes of their smallest width.
pub open spec fn has_room(full_width: Real32) -> bool {
    let usable = shared_width(full_width);
    smallest_pane(usable).le(minus_of(usable, smallest_pane(usable)))
}

pub fn panes_fit(full_width: Real32) -> (out: bool)
    ensures
        out == has_room(full_width),
{
    let usable = find_shared_width(full_width);
    let least = find_smallest_pane(usable);
    least.at_most(minus(usable, least))
}

/// The width of the left one of two panes. It is asked for where both have
/// room.
pub fn split_left_width(full_width: Real32, split_ratio: Real32) -> (out: Real32)
    requires
        has_room(full_width),
    ensures
        out == left_pane(full_width, split_ratio),
{
    let usable = find_shared_width(full_width);
    let least = find_smallest_pane(usable);
    let (low, high) = investigation_split_ratio_bounds(usable, least);
    times(usable, limited(split_ratio, low, high)).clamped(least, minus(usable, least))
}

impl InvestigationState {
    /// Moves the border between two panes.
    pub fn drag_split(&mut self, full_width: Real32, moved: Real32)
        requires
            has_room(full_width),
        ensures
            *final(self) == (InvestigationState {
                split_ratio: dragged_share(full_width, old(self).split_ratio, moved),
                ..*old(self)
            }),
    {
        let usable = find_shared_width(full_width);
        let least = find_smallest_pane(usable);
        let (low, high) = investigation_split_ratio_bounds(usable, least);
        let before = split_left_width(full_width, self.split_ratio);
        let left = plus(before, moved).clamped(least, minus(usable, least));
        self.split_ratio = limited(quotient(left, usable), low, high);
    }
}

/// Whether the camera is fitted to the scene by itself: once, when there is
/// something to see.
pub fn should_auto_fit(camera: &Investigation3dState, scene: &Investigation3dScene) -> (out: bool)
    ensures
        out == (!camera.auto_fitted && scene.visible_points().len() > 0),
{
    !camera.auto_fitted && !scene.is_empty()
}

// ---------------------------------------------------------------------------
// Laws
// ---------------------------------------------------------------------------
/// What is asked of the session in a viewer is done, and nothing else: a popup
/// is closed where one is open and opened where none is, and a region of a
/// camera, but not of a replay, is to be applied.
pub proof fn session_steps_are_those_asked_for(
    output: ViewerOutput,
    from_popup: bool,
    popup_open: bool,
    mode: AppMode,
    step: ViewerStep,
)
    ensures
        session_steps(output, from_popup, popup_open, mode).contains(step) <==> match step {
            ViewerStep::ClosePopup => output.popup_toggled && (from_popup || popup_open),
            ViewerStep::OpenPopup => output.popup_toggled && !from_popup && !popup_open,
            ViewerStep::SetRoi { roi, mark_dirty } => output.new_roi == Some(roi) && mark_dirty
                == !(mode is Replaying),
            ViewerStep::DisconnectTool => output.return_from_external,
            ViewerStep::MaskHotpixels => output.mask_hotpixels_clicked,
            _ => false,
        },
{
    let a = maybe(
        when(
            output.popup_toggled,
            if from_popup || popup_open {
                ViewerStep::ClosePopup
            } else {
                ViewerStep::OpenPopup
            },
        ),
    );
    let b = maybe(
        match output.new_roi {
            Some(roi) => Some(ViewerStep::SetRoi { roi, mark_dirty: mode != AppMode::Replaying }),
            None => None,
        },
    );
    let c = maybe(when(output.return_from_external, ViewerStep::DisconnectTool));
    let d = maybe(when(output.mask_hotpixels_clicked, ViewerStep::MaskHotpixels));
    two_lists_hold(a, b, step);
    two_lists_hold(a + b, c, step);
    two_lists_hold(a + b + c, d, step);
    one_step_or_none(
        when(
            output.popup_toggled,
            if from_popup || popup_open {
                ViewerStep::ClosePopup
            } else {
                ViewerStep::OpenPopup
            },
        ),
        step,
    );
    one_step_or_none(
        match output.new_roi {
            Some(roi) => Some(ViewerStep::SetRoi { roi, mark_dirty: mode != AppMode::Replaying }),
            None => None,
        },
        step,
    );
    one_step_or_none(when(output.return_from_external, ViewerStep::DisconnectTool), step);
    one_step_or_none(when(output.mask_hotpixels_clicked, ViewerStep::MaskHotpixels), step);
}

proof fn one_step_or_none(wanted: Option<ViewerStep>, step: ViewerStep)
    ensures
        maybe(wanted).contains(step) <==> wanted == Some(step),
{
    if wanted == Some(step) {
        assert(maybe(wanted)[0] == step);
    }
}

/// What is asked of the replay in a viewer is done, and nothing else.
pub proof fn replay_steps_are_those_asked_for(output: ViewerOutput, step: ViewerStep)
    ensures
        replay_steps(output).contains(step) <==> match step {
            ViewerStep::TogglePause => output.replay_toggle_pause,
            ViewerStep::Restart => output.replay_restart,
            ViewerStep::Stop => output.replay_stop,
            ViewerStep::StepFrames(frames) => output.replay_step_frames == Some(frames),
            ViewerStep::SeekTo(fraction) => output.replay_seek_to == Some(fraction),
            ViewerStep::SetSpeed(speed) => output.replay_set_speed == Some(speed),
            _ => false,
        },
{
    let wa = when(output.replay_toggle_pause, ViewerStep::TogglePause);
    let wb = when(output.replay_restart, ViewerStep::Restart);
    let wc = when(output.replay_stop, ViewerStep::Stop);
    let wd = match output.replay_step_frames {
        Some(frames) => Some(ViewerStep::StepFrames(frames)),
        None => None,
    };
    let we = match output.replay_seek_to {
        Some(fraction) => Some(ViewerStep::SeekTo(fraction)),
        None => None,
    };
    let wf = match output.replay_set_speed {
        Some(speed) => Some(ViewerStep::SetSpeed(speed)),
        None => None,
    };
    let (a, b, c, d, e, f) = (maybe(wa), maybe(wb), maybe(wc), maybe(wd), maybe(we), maybe(wf));
    two_lists_hold(a, b, step);
    two_lists_hold(a + b, c, step);
    two_lists_hold(a + b + c, d, step);
    two_lists_hold(a + b + c + d, e, step);
    two_lists_hold(a + b + c + d + e, f, step);
    one_step_or_none(wa, step);
    one_step_or_none(wb, step);
    one_step_or_none(wc, step);
    one_step_or_none(wd, step);
    one_step_or_none(we, step);
    one_step_or_none(wf, step);
}

/// A row that was pressed is selected, the row below the pointer is hovered in
/// any case, and the preview is drawn anew where that was asked for.
pub proof fn row_steps_are_those_asked_for(output: ViewerOutput, step: ViewerStep)
    ensures
        row_steps(output).contains(step) <==> match step {
            ViewerStep::SelectRow(row) => output.investigation_select_row == Some(row),
            ViewerStep::Hover(row) => output.investigation_hover_row == row,
            ViewerStep::RefreshPreview => output.needs_preview_refresh,
            _ => false,
        },
{
    let wa = match output.investigation_select_row {
        Some(row) => Some(ViewerStep::SelectRow(row)),
        None => None,
    };
    let wb = Some(ViewerStep::Hover(output.investigation_hover_row));
    let wc = when(output.needs_preview_refresh, ViewerStep::RefreshPreview);
    two_lists_hold(maybe(wa), maybe(wb), step);
    two_lists_hold(maybe(wa) + maybe(wb), maybe(wc), step);
    one_step_or_none(wa, step);
    one_step_or_none(wb, step);
    one_step_or_none(wc, step);
}

/// The keys choose the layouts of their numbers, the highest one where several
/// are pressed; without a graphics card only the plane is shown.
pub proof fn keys_choose_their_layout(layout: InvestigationLayout, keys: ShortcutKeys)
    ensures
        keys.layout_3 ==> layout_after(layout, keys, true) is Inspection3dOnly,
        keys.layout_2 && !keys.layout_3 ==> layout_after(layout, keys, true) is Split2d3d,
        keys.layout_1 && !keys.layout_2 && !keys.layout_3 ==> layout_after(layout, keys, true)
            is Preview2dOnly,
        !keys.layout_1 && !keys.layout_2 && !keys.layout_3 ==> layout_after(layout, keys, true)
            == layout && layout_after(layout, keys, false) == layout,
        keys.layout_1 || keys.layout_2 || keys.layout_3 ==> layout_after(layout, keys, false)
            is Preview2dOnly,
        possible_layout(layout, true) == layout,
        possible_layout(layout, false) is Preview2dOnly,
{
}

/// A camera that looks at a point is turned to it, between 4 and 24 away, and
/// not turned around.
pub proof fn cameras_look_at_their_point(camera: Investigation3dState, target: Position3)
    ensures
        ({
            let after = looking_at(camera, target);
            &&& after.target == target
            &&& !camera.distance.is_nan() ==> (Real32 { bits: 0x4080_0000 }).le(after.distance)
                && after.distance.le(Real32 { bits: 0x41c0_0000 })
            &&& (Real32 { bits: 0x4080_0000 }).le(camera.distance) && camera.distance.le(
                Real32 { bits: 0x41c0_0000 },
            ) ==> after.distance == camera.distance
            &&& after == (Investigation3dState {
                target,
                distance: after.distance,
                ..camera
            })
        }),
{
}

/// The border of two panes leaves as much room on the one side as on the other,
/// and none takes more than half. Without any width it is in the middle.
pub proof fn borders_leave_room_on_both_sides(usable: Real32, least: Real32)
    ensures
        ({
            let (low, high) = split_bounds(usable, least);
            let half = Real32 { bits: 0x3f00_0000 };
            let zero = Real32 { bits: 0 };
            let share = quotient_of(least, usable);
            &&& usable.le(zero) ==> low == half && high == half
            &&& !usable.le(zero) ==> high == minus_of(Real32 { bits: ONE_BITS_32 }, low)
            &&& !usable.le(zero) && !share.is_nan() ==> zero.le(low) && low.le(half)
            &&& !usable.le(zero) && zero.le(share) && share.le(half) ==> low == share
        }),
{
}

/// Where there is room for two panes, no pane is narrower than the smallest
/// width, and a width that leaves that much room on both sides is kept.
pub proof fn panes_keep_their_room(full_width: Real32, width: Real32)
    requires
        has_room(full_width),
        !width.is_nan(),
    ensures
        ({
            let usable = shared_width(full_width);
            let least = smallest_pane(usable);
            let most = minus_of(usable, least);
            &&& least.le(with_room(width, usable))
            &&& with_room(width, usable).le(most)
            &&& least.le(width) && width.le(most) ==> with_room(width, usable) == width
        }),
{
}

/// Two panes share the width but for a handle of twelve. A pane has half of
/// what is left beside forty at least, but never more than 280 and never less
/// than twenty.
pub proof fn whole_panes_are_halved(n: nat)
    requires
        2 * n + 52 < 0x100_0000,
    ensures
        2 * n + 40 >= 1 ==> shared_width(whole_32(2 * n + 52)) == whole_32(2 * n + 40),
        20 <= n <= 280 ==> smallest_pane(whole_32(2 * n + 40)) == whole_32(n),
        n > 280 ==> smallest_pane(whole_32(2 * n + 40)) == whole_32(280),
        n < 20 ==> smallest_pane(whole_32(2 * n + 40)) == whole_32(20),
{
    lemma2_to64();
    whole_32_parts(12, 20);
    whole_32_parts(40, 18);
    whole_32_parts(280, 15);
    assert(whole_32(12).bits == SPLIT_HANDLE_BITS);
    assert(whole_32(40).bits == SMALL_PANE_BITS);
    assert(whole_32(280).bits == LARGE_PANE_BITS);
    whole_numbers_are_calculated_exactly(2 * n + 52, 12);
    whole_numbers_are_calculated_exactly(2 * n + 40, 40);
    whole_numbers_keep_order_32(2 * n + 40, 1);
    whole_numbers_keep_order_32(2 * n, 40);
    whole_numbers_keep_order_32(n, 280);
    whole_numbers_keep_order_32(20, 280);
    halves_and_roots_are_exact(n);
    halves_and_roots_are_exact(20);
    whole_numbers_keep_order_32(2 * n + 40, 2 * n + 40);
    whole_numbers_keep_order_32(2 * n, 2 * n);
    whole_numbers_keep_order_32(280, 280);
}

/// A border that was dragged stays where both panes have their room.
pub proof fn dragged_borders_stay_in_bounds(full_width: Real32, split_ratio: Real32, moved: Real32)
    ensures
        ({
            let usable = shared_width(full_width);
            let (low, high) = split_bounds(usable, smallest_pane(usable));
            let share = dragged_share(full_width, split_ratio, moved);
            low.le(high) && !share.is_nan() ==> low.le(share) && share.le(high)
        }),
{
}

/// There is room for two panes from a width of 52 on.
pub proof fn panes_need_their_room(n: nat, f: nat)
    requires
        2 * n + 52 < 0x100_0000,
        13 <= f < 52,
    ensures
        has_room(whole_32(2 * n + 52)),
        !has_room(whole_32(f)),
{
    whole_panes_are_halved(n);
    let usable = 2 * n + 40;
    let least: nat = if n < 20 {
        20
    } else if n > 280 {
        280
    } else {
        n
    };
    whole_numbers_are_calculated_exactly(usable, least);
    whole_numbers_keep_order_32(least, (usable - least) as nat);
    narrow_panes_are_too_small(f);
}

proof fn narrow_panes_are_too_small(f: nat)
    requires
        13 <= f < 52,
    ensures
        !has_room(whole_32(f)),
{
    lemma2_to64();
    whole_32_parts(12, 20);
    whole_32_parts(40, 18);
    whole_32_parts(280, 15);
    assert(whole_32(12).bits == SPLIT_HANDLE_BITS);
    assert(whole_32(40).bits == SMALL_PANE_BITS);
    assert(whole_32(280).bits == LARGE_PANE_BITS);
    let usable = (f - 12) as nat;
    whole_numbers_are_calculated_exactly(f, 12);
    whole_numbers_keep_order_32(usable, 1);
    whole_numbers_keep_order_32(usable, usable);
    assert(shared_width(whole_32(f)) == whole_32(usable));
    whole_numbers_are_calculated_exactly(usable, 40);
    let missing = (40 - usable) as nat;
    let i = bits_to_24(missing);
    whole_32_parts(missing, i);
    assert(minus_of(whole_32(usable), whole_32(40)) == opposite(whole_32(missing)));
    assert(opposite(whole_32(missing)).lt(whole_32(40)));
    halves_and_roots_are_exact(20);
    whole_numbers_keep_order_32(20, 280);
    assert(smallest_pane(whole_32(usable)) == whole_32(20));
    whole_numbers_are_calculated_exactly(usable, 20);
    if usable >= 20 {
        whole_numbers_keep_order_32(20, (usable - 20) as nat);
    } else {
        let below = (20 - usable) as nat;
        let j = bits_to_24(below);
        whole_32_parts(below, j);
        whole_32_parts(20, 19);
    }
}

/// The left pane has its share of the width, as far as the share and the width
/// leave room for both panes.
pub proof fn left_panes_have_their_share(full_width: Real32, split_ratio: Real32)
    ensures
        ({
            let usable = shared_width(full_width);
            let least = smallest_pane(usable);
            let (low, high) = split_bounds(usable, least);
            let width = times_of(usable, split_ratio);
            low.le(split_ratio) && split_ratio.le(high) && least.le(width) && width.le(
                minus_of(usable, least),
            ) ==> left_pane(full_width, split_ratio) == width
        }),
{
}

} // verus!
