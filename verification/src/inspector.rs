//! The inspector of an investigation: the linked region and selection, the
//! cards of the layers, and the state of the session.
use crate::analysis_runs::{join_texts, joined, texts_of};
use crate::host_data::HostMarkerShape;
use crate::hotpixel::{AnalysisSeverity, AnalysisWarning};
use crate::investigation::{
    lookup_present, same_but_layers, stands_before, InvestigationLayerStyle, InvestigationLayout,
    InvestigationState,
};
use crate::ordered_set::OrderedSet;
use crate::replay::{mode_label, AppMode};
use crate::rows::{AnalysisRoi, StableRowKey};
use crate::scene::{RAW_EVENTS_OFF_LAYER_ID, RAW_EVENTS_ON_LAYER_ID};
use crate::settings::PendingChanges;
use crate::text::{chars_of, decimal, push_decimal, same_text};
use crate::text_map::TextMap;
use crate::whole_text::{fixed_text, push_tenths, tenths_text};
use vstd::prelude::*;

verus! {

/// The name of a marker shape.
pub open spec fn shape_name(shape: HostMarkerShape) -> Seq<char> {
    match shape {
        HostMarkerShape::Circle | HostMarkerShape::FilledCircle => "Filled circle"@,
        HostMarkerShape::Square | HostMarkerShape::Box => "Box"@,
        HostMarkerShape::Diamond => "Diamond"@,
        HostMarkerShape::Cross => "Cross"@,
        HostMarkerShape::Point => "Point"@,
        HostMarkerShape::Ellipse => "Ellipse"@,
    }
}

pub fn host_marker_shape_label(shape: HostMarkerShape) -> (out: &'static str)
    ensures
        out@ == shape_name(shape),
{
    match shape {
        HostMarkerShape::Circle | HostMarkerShape::FilledCircle => "Filled circle",
        HostMarkerShape::Square | HostMarkerShape::Box => "Box",
        HostMarkerShape::Diamond => "Diamond",
        HostMarkerShape::Cross => "Cross",
        HostMarkerShape::Point => "Point",
        HostMarkerShape::Ellipse => "Ellipse",
    }
}

/// Whether a layer holds the camera's events.
pub open spec fn holds_raw_events(layer_id: Seq<char>) -> bool {
    layer_id == RAW_EVENTS_ON_LAYER_ID@ || layer_id == RAW_EVENTS_OFF_LAYER_ID@
}

pub fn is_raw_event_layer(layer_id: &str) -> (out: bool)
    ensures
        out == holds_raw_events(layer_id@),
{
    same_text(layer_id, RAW_EVENTS_ON_LAYER_ID) || same_text(layer_id, RAW_EVENTS_OFF_LAYER_ID)
}

/// The layers in the order of their names: those of the camera's events, and
/// those of the analysis.
#[derive(Debug)]
pub struct LayerGroups {
    pub raw: OrderedSet<String>,
    pub analysis: OrderedSet<String>,
}

impl LayerGroups {
    /// Whether these are the layers that have a style.
    pub open spec fn group(self, styles: TextMap<InvestigationLayerStyle>) -> bool {
        &&& self.raw.wf()
        &&& self.analysis.wf()
        &&& forall|id: Seq<char>| #[trigger]
            self.raw.holds(id) <==> styles.at(id) is Some && holds_raw_events(id)
        &&& forall|id: Seq<char>| #[trigger]
            self.analysis.holds(id) <==> styles.at(id) is Some && !holds_raw_events(id)
    }
}

pub fn layer_groups(styles: &TextMap<InvestigationLayerStyle>) -> (out: LayerGroups)
    ensures
        out.group(*styles),
{
    let mut raw: OrderedSet<String> = OrderedSet::new();
    let mut analysis: OrderedSet<String> = OrderedSet::new();
    let ghost entries = styles.entries();
    let mut i: usize = 0;
    assert forall|id: Seq<char>| !(#[trigger] raw.holds(id)) && !analysis.holds(id) by {}
    while i < styles.len()
        invariant
            i <= entries.len(),
            entries == styles.entries(),
            raw.wf(),
            analysis.wf(),
            forall|id: Seq<char>| #[trigger]
                raw.holds(id) <==> stands_before(entries, i as int, id) && holds_raw_events(id),
            forall|id: Seq<char>| #[trigger]
                analysis.holds(id) <==> stands_before(entries, i as int, id) && !holds_raw_events(
                    id,
                ),
        decreases entries.len() - i,
    {
        let id = styles.key_at(i).clone();
        let ghost before_raw = raw;
        let ghost before_analysis = analysis;
        let ghost text = id@;
        if is_raw_event_layer(id.as_str()) {
            raw.insert(id);
        } else {
            analysis.insert(id);
        }
        proof {
            assert forall|id: Seq<char>| #[trigger]
                stands_before(entries, i + 1, id) <==> (stands_before(entries, i as int, id) || id
                    == text) by {
                if stands_before(entries, i + 1, id) && id != text {
                    let k = choose|k: int| 0 <= k < i + 1 && (#[trigger] entries[k]).0@ == id;
                    assert(entries[k].0@ == id && k < i);
                }
                if id == text {
                    assert(entries[i as int].0@ == id);
                }
                if stands_before(entries, i as int, id) {
                    let k = choose|k: int| 0 <= k < i && (#[trigger] entries[k]).0@ == id;
                    assert(entries[k].0@ == id);
                }
            }
        }
        i = i + 1;
    }
    proof {
        assert forall|id: Seq<char>| #[trigger]
            styles.at(id) is Some <==> stands_before(entries, i as int, id) by {
            lookup_present(entries, id);
        }
    }
    LayerGroups { raw, analysis }
}

/// Shows every layer again.
pub fn show_all_layers(state: &mut InvestigationState)
    requires
        old(state).wf(),
    ensures
        final(state).wf(),
        same_but_layers(*final(state), *old(state)),
        final(state).layer_styles == old(state).layer_styles,
        final(state).focused_layers.items().len() == 0,
        forall|id: Seq<char>| #[trigger]
            final(state).layer_visibility.at(id) == (if old(state).layer_styles.at(id) is Some {
                Some(true)
            } else {
                old(state).layer_visibility.at(id)
            }),
{
    let ghost before = *state;
    state.focused_layers.clear();
    let ghost entries = before.layer_styles.entries();
    let mut i: usize = 0;
    while i < state.layer_styles.len()
        invariant
            state.wf(),
            same_but_layers(*state, before),
            state.layer_styles == before.layer_styles,
            state.focused_layers.items().len() == 0,
            entries == before.layer_styles.entries(),
            i <= entries.len(),
            forall|id: Seq<char>| #[trigger]
                state.layer_visibility.at(id) == (if stands_before(entries, i as int, id) {
                    Some(true)
                } else {
                    before.layer_visibility.at(id)
                }),
        decreases entries.len() - i,
    {
        let id = state.layer_styles.key_at(i).clone();
        let ghost text = id@;
        let ghost previous = *state;
        state.set_layer_visible(id, true);
        proof {
            assert forall|id: Seq<char>| #[trigger]
                state.layer_visibility.at(id) == (if stands_before(entries, i + 1, id) {
                Some(true)
            } else {
                before.layer_visibility.at(id)
            }) by {
                if id == text {
                    assert(entries[i as int].0@ == id);
                } else {
                    assert(state.layer_visibility.at(id) == previous.layer_visibility.at(id));
                    if stands_before(entries, i + 1, id) {
                        let k = choose|k: int| 0 <= k < i + 1 && (#[trigger] entries[k]).0@ == id;
                        assert(entries[k].0@ == id && k < i);
                    }
                    if stands_before(entries, i as int, id) {
                        let k = choose|k: int| 0 <= k < i && (#[trigger] entries[k]).0@ == id;
                        assert(entries[k].0@ == id);
                    }
                }
            }
        }
        i = i + 1;
    }
    proof {
        assert forall|id: Seq<char>| #[trigger]
            state.layer_visibility.at(id) == (if before.layer_styles.at(id) is Some {
            Some(true)
        } else {
            before.layer_visibility.at(id)
        }) by {
            lookup_present(entries, id);
        }
    }
}

/// Takes over what was edited on the card of a layer. A layer that is shown is
/// no longer isolated.
pub fn apply_layer_card(
    state: &mut InvestigationState,
    layer_id: &str,
    style: InvestigationLayerStyle,
    visible: bool,
)
    requires
        old(state).wf(),
    ensures
        final(state).wf(),
        same_but_layers(*final(state), *old(state)),
        forall|id: Seq<char>| #[trigger]
            final(state).layer_styles.at(id) == (if id == layer_id@ && old(state).layer_styles.at(
                id,
            ) is Some {
                Some(style)
            } else {
                old(state).layer_styles.at(id)
            }),
        forall|id: Seq<char>| #[trigger]
            final(state).layer_visibility.at(id) == (if id == layer_id@ {
                Some(visible)
            } else {
                old(state).layer_visibility.at(id)
            }),
        forall|id: Seq<char>| #[trigger]
            final(state).focused_layers.holds(id) <==> old(state).focused_layers.holds(id) && !(
            visible && id == layer_id@),
{
    let name = layer_id.to_owned();
    if state.layer_styles.get(layer_id).is_some() {
        state.layer_styles.insert(name.clone(), style);
    }
    if visible {
        let _was_isolated = state.focused_layers.remove(&name);
    }
    state.set_layer_visible(name, visible);
}

/// Whether one text stands in another.
pub open spec fn occurs_in(needle: Seq<char>, text: Seq<char>) -> bool {
    exists|at: int| #[trigger] occurs_at(needle, text, at)
}

/// Whether one text stands at a place of another.
pub open spec fn occurs_at(needle: Seq<char>, text: Seq<char>, at: int) -> bool {
    0 <= at && at + needle.len() <= text.len() && text.subrange(at, at + needle.len()) == needle
}

fn text_contains(text: &str, needle: &str) -> (out: bool)
    ensures
        out == occurs_in(needle@, text@),
{
    let hay = chars_of(text);
    let wanted = chars_of(needle);
    if wanted.len() == 0 {
        assert(occurs_at(needle@, text@, 0)) by {
            assert(text@.subrange(0, 0) =~= needle@);
        }
        return true;
    }
    if wanted.len() > hay.len() {
        return false;
    }
    let length: usize = hay.len();
    let last: usize = hay.len() - wanted.len();
    let mut at: usize = 0;
    while at <= last
        invariant
            hay@ == text@,
            wanted@ == needle@,
            wanted@.len() > 0,
            length == hay@.len(),
            last == length - wanted@.len(),
            at <= last + 1,
            forall|k: int| 0 <= k < at ==> !(#[trigger] occurs_at(needle@, text@, k)),
        decreases last + 1 - at,
    {
        let mut i: usize = 0;
        while i < wanted.len() && hay[at + i] == wanted[i]
            invariant
                hay@ == text@,
                wanted@ == needle@,
                at <= last,
                length == hay@.len(),
                last == length - wanted@.len(),
                i <= wanted@.len(),
                forall|k: int| 0 <= k < i ==> hay@[at + k] == wanted@[k],
            decreases wanted@.len() - i,
        {
            i = i + 1;
        }
        if i == wanted.len() {
            proof {
                assert(text@.subrange(at as int, at + needle@.len()) =~= needle@);
                assert(occurs_at(needle@, text@, at as int));
            }
            return true;
        }
        proof {
            if occurs_at(needle@, text@, at as int) {
                assert(text@.subrange(at as int, at + needle@.len())[i as int] == needle@[i as int]);
            }
        }
        at = at + 1;
    }
    false
}

/// The title of the first layer, from a place on, whose id stands in the id of
/// a dataset.
pub open spec fn layer_title(
    entries: Seq<(String, InvestigationLayerStyle)>,
    from: int,
    dataset_id: Seq<char>,
) -> Seq<char>
    decreases entries.len() - from,
{
    if from < 0 || from >= entries.len() {
        dataset_id
    } else if occurs_in(entries[from].0@, dataset_id) {
        entries[from].1.title@
    } else {
        layer_title(entries, from + 1, dataset_id)
    }
}

/// The line on the selected row.
pub open spec fn selected_line(
    selected: Option<StableRowKey>,
    styles: TextMap<InvestigationLayerStyle>,
) -> Seq<char> {
    match selected {
        Some(key) => "Selected item: "@ + layer_title(styles.entries(), 0, key.dataset_id@)
            + " row "@ + key.row_id@,
        None => "Selected item: none"@,
    }
}

pub fn selected_item_text(
    selected: Option<&StableRowKey>,
    styles: &TextMap<InvestigationLayerStyle>,
) -> (out: String)
    ensures
        out@ == (match selected {
            Some(key) => selected_line(Some(*key), *styles),
            None => selected_line(None, *styles),
        }),
{
    match selected {
        None => "Selected item: none".to_owned(),
        Some(key) => {
            let mut out = "Selected item: ".to_owned();
            let mut i: usize = 0;
            let ghost entries = styles.entries();
            let ghost id = key.dataset_id@;
            while i < styles.len() && !text_contains(
                key.dataset_id.as_str(),
                styles.key_at(i).as_str(),
            )
                invariant
                    entries == styles.entries(),
                    id == key.dataset_id@,
                    i <= entries.len(),
                    layer_title(entries, i as int, id) == layer_title(entries, 0, id),
                decreases entries.len() - i,
            {
                i = i + 1;
            }
            if i < styles.len() {
                out.append(styles.value_at(i).title.as_str());
            } else {
                out.append(key.dataset_id.as_str());
            }
            out.append(" row ");
            out.append(key.row_id.as_str());
            assert(out@ =~= selected_line(Some(*key), *styles));
            out
        },
    }
}

/// A warning as it is shown.
#[derive(Debug)]
pub struct WarningLine {
    pub severity: AnalysisSeverity,
    pub text: String,
}

/// How many warnings are shown.
pub const SHOWN_WARNINGS: usize = 6;

/// The first warnings, with their sources.
pub open spec fn warning_texts(warnings: Seq<AnalysisWarning>) -> Seq<(
    AnalysisSeverity,
    Seq<char>,
)> {
    let shown = if warnings.len() < SHOWN_WARNINGS {
        warnings
    } else {
        warnings.take(SHOWN_WARNINGS as int)
    };
    shown.map_values(|w: AnalysisWarning| (w.severity, w.source@ + ": "@ + w.message@))
}

pub open spec fn line_views(lines: Seq<WarningLine>) -> Seq<(AnalysisSeverity, Seq<char>)> {
    lines.map_values(|line: WarningLine| (line.severity, line.text@))
}

pub fn warning_lines(warnings: &Vec<AnalysisWarning>) -> (out: Vec<WarningLine>)
    ensures
        line_views(out@) == warning_texts(warnings@),
{
    let mut out: Vec<WarningLine> = Vec::new();
    let shown: usize = if warnings.len() < SHOWN_WARNINGS {
        warnings.len()
    } else {
        SHOWN_WARNINGS
    };
    let ghost all = warning_texts(warnings@);
    let mut i: usize = 0;
    while i < shown
        invariant
            i <= shown <= warnings@.len(),
            all == warning_texts(warnings@),
            shown == all.len(),
            out@.len() == i,
            forall|k: int| 0 <= k < i ==> line_views(out@)[k] == #[trigger] all[k],
        decreases shown - i,
    {
        let mut text = warnings[i].source.clone();
        text.append(": ");
        text.append(warnings[i].message.as_str());
        let ghost before = out@;
        out.push(WarningLine { severity: warnings[i].severity, text });
        proof {
            assert(line_views(out@) =~= line_views(before).push((warnings@[i as int].severity, text@)));
            assert(all[i as int] == (
                warnings@[i as int].severity,
                warnings@[i as int].source@ + ": "@ + warnings@[i as int].message@,
            ));
        }
        i = i + 1;
    }
    assert(line_views(out@) =~= all);
    out
}

/// What the inspector shows.
#[derive(Debug)]
pub struct InspectorView {
    pub layout: String,
    pub linked_roi: String,
    pub selected: String,
    pub hovered: Option<String>,
    /// Whether the selection can be cleared.
    pub offers_clear: bool,
    pub isolated: Option<String>,
    pub layers: LayerGroups,
    pub mode: String,
    /// The changes that wait to be applied.
    pub pending: Option<&'static str>,
    pub warnings: Vec<WarningLine>,
    pub more_warnings: Option<String>,
    pub notice: Option<String>,
}

/// The lines of the inspector that may be absent, as texts.
pub open spec fn opt_text(line: Option<String>) -> Option<Seq<char>> {
    match line {
        Some(text) => Some(text@),
        None => None,
    }
}

pub open spec fn more_line(count: nat) -> Option<Seq<char>> {
    if count > SHOWN_WARNINGS {
        Some(decimal((count - SHOWN_WARNINGS) as nat) + " more warning(s) remain."@)
    } else {
        None
    }
}

fn more_warnings(count: usize) -> (out: Option<String>)
    ensures
        opt_text(out) == more_line(count as nat),
{
    if count > SHOWN_WARNINGS {
        let mut text = String::new();
        push_decimal(&mut text, (count - SHOWN_WARNINGS) as u64);
        text.append(" more warning(s) remain.");
        assert(text@ =~= more_line(count as nat)->0);
        Some(text)
    } else {
        None
    }
}

fn prefixed(prefix: &str, text: &str) -> (out: String)
    ensures
        out@ == prefix@ + text@,
{
    let mut out = prefix.to_owned();
    out.append(text);
    out
}

/// The name of a layout.
pub open spec fn layout_name(layout: InvestigationLayout) -> Seq<char> {
    match layout {
        InvestigationLayout::Preview2dOnly => "2D only"@,
        InvestigationLayout::Split2d3d => "Split 2D + 3D"@,
        InvestigationLayout::Inspection3dOnly => "3D only"@,
    }
}

/// The name of a mode.
pub open spec fn mode_name(mode: AppMode) -> Seq<char> {
    match mode {
        AppMode::Idle => "Idle"@,
        AppMode::Previewing => "Previewing"@,
        AppMode::Recording => "Recording"@,
        AppMode::Replaying => "Replaying"@,
    }
}

/// The first of the selected rows.
pub open spec fn first_selected(state: InvestigationState) -> Option<StableRowKey> {
    if state.selected_rows.items().len() > 0 {
        Some(state.selected_rows.items()[0])
    } else {
        None
    }
}

/// The bounds of the linked region.
pub open spec fn linked_roi_text(roi: AnalysisRoi) -> Seq<char> {
    "Linked ROI: x "@ + tenths_text(roi.x_min) + ".."@ + tenths_text(roi.x_max) + ", y "@
        + tenths_text(roi.y_min) + ".."@ + tenths_text(roi.y_max)
}

fn linked_roi_line(roi: &AnalysisRoi) -> (out: String)
    ensures
        out@ == linked_roi_text(*roi),
{
    let mut out = "Linked ROI: x ".to_owned();
    push_tenths(&mut out, roi.x_min);
    out.append("..");
    push_tenths(&mut out, roi.x_max);
    out.append(", y ");
    push_tenths(&mut out, roi.y_min);
    out.append("..");
    push_tenths(&mut out, roi.y_max);
    out
}

/// What the inspector shows of an investigation.
pub fn render_investigation_inspector(
    state: &InvestigationState,
    mode: AppMode,
    pending: &PendingChanges,
    warnings: &Vec<AnalysisWarning>,
    notice: Option<&str>,
) -> (out: InspectorView)
    requires
        state.wf(),
    ensures
        out.layout@ == "Current layout: "@ + layout_name(state.layout),
        out.linked_roi@ == (match state.active_analysis_roi {
            Some(roi) => linked_roi_text(roi),
            None => "Linked ROI: off"@,
        }),
        out.selected@ == selected_line(first_selected(*state), state.layer_styles),
        opt_text(out.hovered) == (match state.hovered_row {
            Some(key) => Some("Hovered row: "@ + key.row_id@),
            None => None,
        }),
        out.offers_clear == (first_selected(*state) is Some || state.hovered_row is Some),
        opt_text(out.isolated) == (if state.focused_layers.items().len() == 0 {
            None
        } else {
            Some("Isolated: "@ + joined(texts_of(state.focused_layers.items()), ", "@))
        }),
        out.layers.group(state.layer_styles),
        out.mode@ == "Mode: "@ + mode_name(mode),
        out.pending is Some <==> pending.text() is Some,
        out.pending matches Some(text) ==> text@ == pending.text()->0,
        line_views(out.warnings@) == warning_texts(warnings@),
        opt_text(out.more_warnings) == more_line(warnings@.len()),
        opt_text(out.notice) == (match notice {
            Some(text) => Some("Notice: "@ + text@),
            None => None,
        }),
{
    let selected = state.primary_selection();
    let hovered = match &state.hovered_row {
        Some(key) => Some(prefixed("Hovered row: ", key.row_id.as_str())),
        None => None,
    };
    let isolated = if state.focused_layers.is_empty() {
        None
    } else {
        let names = join_texts(state.focused_layers.as_list(), ", ");
        Some(prefixed("Isolated: ", names.as_str()))
    };
    InspectorView {
        layout: prefixed("Current layout: ", state.layout.label()),
        linked_roi: match &state.active_analysis_roi {
            Some(roi) => linked_roi_line(roi),
            None => "Linked ROI: off".to_owned(),
        },
        selected: selected_item_text(selected, &state.layer_styles),
        hovered,
        offers_clear: selected.is_some() || state.hovered_row.is_some(),
        isolated,
        layers: layer_groups(&state.layer_styles),
        mode: prefixed("Mode: ", mode_label(mode)),
        pending: pending.label(),
        warnings: warning_lines(warnings),
        more_warnings: more_warnings(warnings.len()),
        notice: match notice {
            Some(text) => Some(prefixed("Notice: ", text)),
            None => None,
        },
    }
}

// ---------------------------------------------------------------------------
// Laws
// ---------------------------------------------------------------------------
/// The layer that a dataset is called by is the first one whose id stands in
/// the dataset's id; without one it is called by its own id.
pub proof fn datasets_are_called_by_their_layer(
    entries: Seq<(String, InvestigationLayerStyle)>,
    from: int,
    dataset_id: Seq<char>,
    k: int,
)
    requires
        0 <= from <= entries.len(),
    ensures
        from <= k < entries.len() && occurs_in(entries[k].0@, dataset_id) && (forall|j: int|
            from <= j < k ==> !occurs_in((#[trigger] entries[j]).0@, dataset_id)) ==> layer_title(
            entries,
            from,
            dataset_id,
        ) == entries[k].1.title@,
        (forall|j: int|
            from <= j < entries.len() ==> !occurs_in((#[trigger] entries[j]).0@, dataset_id))
            ==> layer_title(entries, from, dataset_id) == dataset_id,
    decreases entries.len() - from,
{
    if from < entries.len() {
        if !occurs_in(entries[from].0@, dataset_id) {
            datasets_are_called_by_their_layer(entries, from + 1, dataset_id, k);
        }
    }
}

/// The first six warnings are shown, each with its source in front, and the
/// rest is counted.
pub proof fn first_warnings_are_shown(warnings: Seq<AnalysisWarning>, i: int)
    ensures
        warnings.len() <= 6 ==> warning_texts(warnings).len() == warnings.len() && more_line(
            warnings.len(),
        ) is None,
        warnings.len() > 6 ==> warning_texts(warnings).len() == 6 && more_line(warnings.len())
            == Some(decimal((warnings.len() - 6) as nat) + " more warning(s) remain."@),
        0 <= i < warnings.len() && i < 6 ==> warning_texts(warnings)[i] == (
            warnings[i].severity,
            warnings[i].source@ + ": "@ + warnings[i].message@,
        ),
{
}

/// The linked region is written by its bounds, columns before rows, each from
/// the lower to the upper one.
pub proof fn regions_are_written_by_their_bounds(roi: AnalysisRoi)
    ensures
        linked_roi_text(roi) == "Linked ROI: x "@ + fixed_text(roi.x_min, 1) + ".."@ + fixed_text(
            roi.x_max,
            1,
        ) + ", y "@ + fixed_text(roi.y_min, 1) + ".."@ + fixed_text(roi.y_max, 1),
{
}

/// The names that the inspector gives layouts and modes.
pub proof fn layouts_and_modes_have_their_names()
    ensures
        layout_name(InvestigationLayout::Preview2dOnly) == "2D only"@,
        layout_name(InvestigationLayout::Split2d3d) == "Split 2D + 3D"@,
        layout_name(InvestigationLayout::Inspection3dOnly) == "3D only"@,
        mode_name(AppMode::Idle) == "Idle"@,
        mode_name(AppMode::Previewing) == "Previewing"@,
        mode_name(AppMode::Recording) == "Recording"@,
        mode_name(AppMode::Replaying) == "Replaying"@,
{
}

/// Every layer with a style stands in one of the two groups and no other layer
/// does, and the camera's events stand in a group of their own.
pub proof fn layers_stand_in_one_group(
    groups: LayerGroups,
    styles: TextMap<InvestigationLayerStyle>,
    id: Seq<char>,
)
    requires
        groups.group(styles),
    ensures
        styles.at(id) is Some <==> groups.raw.holds(id) || groups.analysis.holds(id),
        !(groups.raw.holds(id) && groups.analysis.holds(id)),
        groups.raw.holds(id) ==> id == "host.raw_events.on"@ || id == "host.raw_events.off"@,
        groups.analysis.holds(id) ==> id != "host.raw_events.on"@ && id != "host.raw_events.off"@,
{
}

/// A text is found wherever it stands, at the start and at the end too.
pub proof fn texts_are_found_where_they_stand(
    before: Seq<char>,
    needle: Seq<char>,
    after: Seq<char>,
    text: Seq<char>,
    at: int,
)
    ensures
        occurs_at(needle, before + needle + after, before.len() as int),
        occurs_at(needle, text, at) ==> text == text.take(at) + needle + text.skip(
            at + needle.len(),
        ),
{
    let whole = before + needle + after;
    let b = before.len() as int;
    assert(whole.subrange(b, b + needle.len()) =~= needle);
    if occurs_at(needle, text, at) {
        let parts = text.take(at) + needle + text.skip(at + needle.len());
        assert forall|i: int| 0 <= i < text.len() implies text[i] == parts[i] by {
            if at <= i < at + needle.len() {
                assert(text.subrange(at, at + needle.len())[i - at] == text[i]);
            }
        }
        assert(text =~= parts);
    }
}

} // verus!
