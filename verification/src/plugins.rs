//! Analysis plugins: which of them run on a frame and in what order, what they
//! need of the pipeline, and what is told when they change.
use crate::analysis_runs::{join_texts, joined, texts_of};
use crate::hotpixel::{AnalysisSeverity, AnalysisWarning};
use crate::investigation::InvestigationLayout;
use crate::replay::AppMode;
use crate::text::same_text;
use vstd::prelude::*;

verus! {

/// What a plugin works on. Plugins that work on frames run first, those that
/// work on what others derived run last.
#[derive(Debug, Clone, Copy, PartialEq, Eq, Structural)]
pub enum PluginInput {
    FrameOnly,
    RawEvents,
    DerivedData,
}

/// A plugin as far as the library decides on it.
#[derive(Debug)]
pub struct PluginRecord {
    pub name: String,
    /// Whether its code is there. One that could not be loaded never runs.
    pub loaded: bool,
    pub enabled: bool,
    pub input: PluginInput,
    pub retained_event_history: bool,
    pub dependencies: Vec<String>,
}

impl PluginRecord {
    pub open spec fn is_active(self) -> bool {
        self.loaded && self.enabled
    }

    pub fn active(&self) -> (out: bool)
        ensures
            out == self.is_active(),
    {
        self.loaded && self.enabled
    }
}

/// Whether a plugin that runs works on the events themselves.
pub open spec fn needs_raw_events(records: Seq<PluginRecord>) -> bool {
    exists|i: int|
        0 <= i < records.len() && (#[trigger] records[i]).is_active() && records[i].input
            == PluginInput::RawEvents
}

pub fn plugins_need_raw_events(records: &Vec<PluginRecord>) -> (out: bool)
    ensures
        out == needs_raw_events(records@),
{
    let mut i: usize = 0;
    while i < records.len()
        invariant
            i <= records@.len(),
            forall|k: int|
                0 <= k < i ==> !((#[trigger] records@[k]).is_active() && records@[k].input
                    == PluginInput::RawEvents),
        decreases records@.len() - i,
    {
        if records[i].active() && records[i].input == PluginInput::RawEvents {
            assert(records@[i as int].is_active());
            return true;
        }
        i = i + 1;
    }
    false
}

/// Whether a plugin that runs looks back at earlier events.
pub open spec fn needs_history(records: Seq<PluginRecord>) -> bool {
    exists|i: int|
        0 <= i < records.len() && (#[trigger] records[i]).is_active()
            && records[i].retained_event_history
}

pub fn plugins_need_retained_event_history(records: &Vec<PluginRecord>) -> (out: bool)
    ensures
        out == needs_history(records@),
{
    let mut i: usize = 0;
    while i < records.len()
        invariant
            i <= records@.len(),
            forall|k: int|
                0 <= k < i ==> !((#[trigger] records@[k]).is_active()
                    && records@[k].retained_event_history),
        decreases records@.len() - i,
    {
        if records[i].active() && records[i].retained_event_history {
            assert(records@[i as int].is_active());
            return true;
        }
        i = i + 1;
    }
    false
}

/// Whether a plugin runs.
pub open spec fn any_active(records: Seq<PluginRecord>) -> bool {
    exists|i: int| 0 <= i < records.len() && (#[trigger] records[i]).is_active()
}

pub fn runtime_plugins_enabled(records: &Vec<PluginRecord>) -> (out: bool)
    ensures
        out == any_active(records@),
{
    let mut i: usize = 0;
    while i < records.len()
        invariant
            i <= records@.len(),
            forall|k: int| 0 <= k < i ==> !(#[trigger] records@[k]).is_active(),
        decreases records@.len() - i,
    {
        if records[i].active() {
            assert(records@[i as int].is_active());
            return true;
        }
        i = i + 1;
    }
    false
}

/// Whether the pipeline keeps the events of its frames: for a view or a
/// renderer that draws them, or for plugins.
pub fn raw_events_required(
    layout: InvestigationLayout,
    preview_mode_requires_them: bool,
    renderer_prefers_them: bool,
    records: &Vec<PluginRecord>,
) -> (out: bool)
    ensures
        out == (layout != InvestigationLayout::Preview2dOnly || preview_mode_requires_them || (
        layout != InvestigationLayout::Inspection3dOnly && renderer_prefers_them)
            || needs_raw_events(records@) || needs_history(records@)),
{
    layout.shows_3d() || preview_mode_requires_them || (layout.shows_2d() && renderer_prefers_them)
        || plugins_need_raw_events(records) || plugins_need_retained_event_history(records)
}

/// The names of the plugins that run, in the order of the records.
pub open spec fn active_names(records: Seq<PluginRecord>) -> Seq<Seq<char>>
    decreases records.len(),
{
    if records.len() == 0 {
        Seq::empty()
    } else {
        let before = active_names(records.drop_last());
        if records.last().is_active() {
            before.push(records.last().name@)
        } else {
            before
        }
    }
}

pub fn enabled_plugin_names(records: &Vec<PluginRecord>) -> (out: Vec<String>)
    ensures
        texts_of(out@) == active_names(records@),
{
    let mut out: Vec<String> = Vec::new();
    let mut i: usize = 0;
    proof {
        assert(records@.take(0) =~= Seq::empty());
        assert(texts_of(out@) =~= Seq::empty());
    }
    while i < records.len()
        invariant
            i <= records@.len(),
            texts_of(out@) == active_names(records@.take(i as int)),
        decreases records@.len() - i,
    {
        proof {
            assert(records@.take(i + 1).drop_last() =~= records@.take(i as int));
            assert(records@.take(i + 1).last() == records@[i as int]);
        }
        if records[i].active() {
            let ghost before = out@;
            out.push(records[i].name.clone());
            assert(texts_of(out@) =~= texts_of(before).push(records@[i as int].name@));
        }
        i = i + 1;
    }
    assert(records@.take(i as int) =~= records@);
    out
}

/// The dependencies that are not among some names, in their order.
pub open spec fn missing(dependencies: Seq<Seq<char>>, names: Seq<Seq<char>>) -> Seq<Seq<char>>
    decreases dependencies.len(),
{
    if dependencies.len() == 0 {
        Seq::empty()
    } else {
        let before = missing(dependencies.drop_last(), names);
        if names.contains(dependencies.last()) {
            before
        } else {
            before.push(dependencies.last())
        }
    }
}

fn lists(names: &Vec<String>, name: &str) -> (out: bool)
    ensures
        out == texts_of(names@).contains(name@),
{
    let mut i: usize = 0;
    while i < names.len()
        invariant
            i <= names@.len(),
            forall|k: int| 0 <= k < i ==> (#[trigger] names@[k])@ != name@,
        decreases names@.len() - i,
    {
        if same_text(names[i].as_str(), name) {
            assert(texts_of(names@)[i as int] == name@);
            return true;
        }
        i = i + 1;
    }
    assert forall|k: int| 0 <= k < texts_of(names@).len() implies #[trigger] texts_of(
        names@,
    )[k] != name@ by {
        assert(names@[k]@ != name@);
    }
    false
}

/// The dependencies of a plugin that do not run.
pub fn missing_dependencies(dependencies: &Vec<String>, enabled: &Vec<String>) -> (out: Vec<String>)
    ensures
        texts_of(out@) == missing(texts_of(dependencies@), texts_of(enabled@)),
{
    let mut out: Vec<String> = Vec::new();
    let mut i: usize = 0;
    let ghost wanted = texts_of(dependencies@);
    proof {
        assert(wanted.take(0) =~= Seq::empty());
        assert(texts_of(out@) =~= Seq::empty());
    }
    while i < dependencies.len()
        invariant
            i <= dependencies@.len(),
            wanted == texts_of(dependencies@),
            texts_of(out@) == missing(wanted.take(i as int), texts_of(enabled@)),
        decreases dependencies@.len() - i,
    {
        proof {
            assert(wanted.take(i + 1).drop_last() =~= wanted.take(i as int));
            assert(wanted.take(i + 1).last() == dependencies@[i as int]@);
        }
        if !lists(enabled, dependencies[i].as_str()) {
            let ghost before = out@;
            out.push(dependencies[i].clone());
            assert(texts_of(out@) =~= texts_of(before).push(dependencies@[i as int]@));
        }
        i = i + 1;
    }
    assert(wanted.take(i as int) =~= wanted);
    out
}

/// The line that lists the dependencies of a plugin.
pub fn dependencies_text(dependencies: &Vec<String>) -> (out: String)
    ensures
        out@ == "Dependencies: "@ + (if dependencies@.len() == 0 {
            "none"@
        } else {
            joined(texts_of(dependencies@), ", "@)
        }),
{
    let mut out = "Dependencies: ".to_owned();
    if dependencies.len() == 0 {
        out.append("none");
    } else {
        let list = join_texts(dependencies, ", ");
        out.append(list.as_str());
    }
    out
}

/// The warning about dependencies that do not run.
pub fn missing_text(missing: &Vec<String>) -> (out: Option<String>)
    ensures
        missing@.len() == 0 ==> out is None,
        missing@.len() > 0 ==> (out matches Some(text) && text@ == "Missing dependency: "@ + joined(
            texts_of(missing@),
            ", "@,
        )),
{
    if missing.len() == 0 {
        return None;
    }
    let mut out = "Missing dependency: ".to_owned();
    let list = join_texts(missing, ", ");
    out.append(list.as_str());
    Some(out)
}

/// The plugins that run in a phase, as places among the records.
pub open spec fn runs_in(records: Seq<PluginRecord>, phase: PluginInput) -> Seq<usize>
    decreases records.len(),
{
    if records.len() == 0 {
        Seq::empty()
    } else {
        let before = runs_in(records.drop_last(), phase);
        if records.last().is_active() && records.last().input == phase {
            before.push((records.len() - 1) as usize)
        } else {
            before
        }
    }
}

/// The plugins that run on a frame, in the order in which they do: phase by
/// phase, and in a phase in the order of the records.
pub open spec fn run_order(records: Seq<PluginRecord>) -> Seq<usize> {
    runs_in(records, PluginInput::FrameOnly) + runs_in(records, PluginInput::RawEvents) + runs_in(
        records,
        PluginInput::DerivedData,
    )
}

fn push_phase(out: &mut Vec<usize>, records: &Vec<PluginRecord>, phase: PluginInput)
    ensures
        final(out)@ == old(out)@ + runs_in(records@, phase),
{
    let ghost start = out@;
    let mut i: usize = 0;
    proof {
        assert(records@.take(0) =~= Seq::empty());
        assert(start + Seq::<usize>::empty() =~= start);
    }
    while i < records.len()
        invariant
            i <= records@.len(),
            out@ == start + runs_in(records@.take(i as int), phase),
        decreases records@.len() - i,
    {
        proof {
            assert(records@.take(i + 1).drop_last() =~= records@.take(i as int));
            assert(records@.take(i + 1).last() == records@[i as int]);
        }
        if records[i].active() && records[i].input == phase {
            out.push(i);
            assert(out@ =~= start + runs_in(records@.take(i as int), phase).push(i));
        }
        i = i + 1;
    }
    assert(records@.take(i as int) =~= records@);
}

pub fn plugin_run_order(records: &Vec<PluginRecord>) -> (out: Vec<usize>)
    ensures
        out@ == run_order(records@),
{
    let mut out: Vec<usize> = Vec::new();
    push_phase(&mut out, records, PluginInput::FrameOnly);
    push_phase(&mut out, records, PluginInput::RawEvents);
    push_phase(&mut out, records, PluginInput::DerivedData);
    assert(out@ =~= run_order(records@));
    out
}

/// What a phase runs: the plugins of that phase, each once.
proof fn phase_is_complete(records: Seq<PluginRecord>, phase: PluginInput)
    requires
        records.len() <= usize::MAX,
    ensures
        forall|i: int|
            0 <= i < records.len() && (#[trigger] records[i]).is_active() && records[i].input
                == phase ==> runs_in(records, phase).contains(i as usize),
        forall|k: int|
            0 <= k < runs_in(records, phase).len() ==> (#[trigger] runs_in(records, phase)[k])
                < records.len() && records[runs_in(records, phase)[k] as int].is_active()
                && records[runs_in(records, phase)[k] as int].input == phase,
        forall|a: int, b: int|
            0 <= a < b < runs_in(records, phase).len() ==> runs_in(records, phase)[a] < runs_in(
                records,
                phase,
            )[b],
    decreases records.len(),
{
    if records.len() > 0 {
        let shorter = records.drop_last();
        phase_is_complete(shorter, phase);
        let before = runs_in(shorter, phase);
        let all = runs_in(records, phase);
        let last = (records.len() - 1) as usize;
        assert forall|i: int|
            0 <= i < records.len() && (#[trigger] records[i]).is_active() && records[i].input
                == phase implies all.contains(i as usize) by {
            if i < records.len() - 1 {
                assert(shorter[i].is_active());
                assert(before.contains(i as usize));
                let k = choose|k: int| 0 <= k < before.len() && before[k] == i as usize;
                assert(all[k] == i as usize);
            } else {
                assert(all[all.len() - 1] == last);
            }
        }
        assert forall|k: int| 0 <= k < all.len() implies (#[trigger] all[k]) < records.len()
            && records[all[k] as int].is_active() && records[all[k] as int].input == phase by {
            if k < before.len() {
                assert(before[k] < shorter.len());
                assert(shorter[before[k] as int] == records[before[k] as int]);
            }
        }
        assert forall|a: int, b: int| 0 <= a < b < all.len() implies all[a] < all[b] by {
            if b < before.len() {
                assert(before[a] < before[b]);
            } else {
                assert(before[a] < shorter.len());
            }
        }
    }
}

/// On a frame every plugin that is loaded and enabled runs, no other one, and
/// none runs twice; and no plugin runs after one of a later phase.
pub proof fn active_plugins_run_once(records: Seq<PluginRecord>)
    requires
        records.len() <= usize::MAX,
    ensures
        forall|i: int|
            0 <= i < records.len() && (#[trigger] records[i]).is_active() ==> run_order(
                records,
            ).contains(i as usize),
        forall|k: int|
            0 <= k < run_order(records).len() ==> (#[trigger] run_order(records)[k])
                < records.len() && records[run_order(records)[k] as int].is_active(),
        run_order(records).no_duplicates(),
        forall|a: int, b: int|
            0 <= a < b < run_order(records).len() ==> !runs_after(
                records[#[trigger] run_order(records)[a] as int].input,
                records[#[trigger] run_order(records)[b] as int].input,
            ),
{
    phase_is_complete(records, PluginInput::FrameOnly);
    phase_is_complete(records, PluginInput::RawEvents);
    phase_is_complete(records, PluginInput::DerivedData);
    let f = runs_in(records, PluginInput::FrameOnly);
    let r = runs_in(records, PluginInput::RawEvents);
    let d = runs_in(records, PluginInput::DerivedData);
    let all = run_order(records);
    assert forall|i: int| 0 <= i < records.len() && (#[trigger] records[i]).is_active() implies
        all.contains(i as usize) by {
        match records[i].input {
            PluginInput::FrameOnly => {
                let k = choose|k: int| 0 <= k < f.len() && f[k] == i as usize;
                assert(all[k] == i as usize);
            },
            PluginInput::RawEvents => {
                let k = choose|k: int| 0 <= k < r.len() && r[k] == i as usize;
                assert(all[f.len() + k] == i as usize);
            },
            PluginInput::DerivedData => {
                let k = choose|k: int| 0 <= k < d.len() && d[k] == i as usize;
                assert(all[f.len() + r.len() + k] == i as usize);
            },
        }
    }
    assert forall|k: int| 0 <= k < all.len() implies (#[trigger] all[k]) < records.len()
        && records[all[k] as int].is_active() && records[all[k] as int].input == (if k < f.len() {
        PluginInput::FrameOnly
    } else if k < f.len() + r.len() {
        PluginInput::RawEvents
    } else {
        PluginInput::DerivedData
    }) by {
        if k < f.len() {
            assert(all[k] == f[k]);
        } else if k < f.len() + r.len() {
            assert(all[k] == r[k - f.len()]);
        } else {
            assert(all[k] == d[k - f.len() - r.len()]);
        }
    }
    assert forall|a: int, b: int| 0 <= a < b < all.len() implies all[a] != all[b] && !runs_after(
        records[#[trigger] all[a] as int].input,
        records[#[trigger] all[b] as int].input,
    ) by {
        if b < f.len() {
            assert(all[a] == f[a] && all[b] == f[b]);
        } else if f.len() <= a && b < f.len() + r.len() {
            assert(all[a] == r[a - f.len()] && all[b] == r[b - f.len()]);
        } else if f.len() + r.len() <= a {
            assert(all[a] == d[a - f.len() - r.len()] && all[b] == d[b - f.len() - r.len()]);
        }
    }
}

/// Whether one phase comes after another.
pub open spec fn runs_after(phase: PluginInput, other: PluginInput) -> bool {
    match phase {
        PluginInput::FrameOnly => false,
        PluginInput::RawEvents => other == PluginInput::FrameOnly,
        PluginInput::DerivedData => other != PluginInput::DerivedData,
    }
}

/// What is done with the history of events before plugins run.
#[derive(Debug, Clone, Copy, PartialEq, Eq, Structural)]
pub enum HistoryPlan {
    /// No plugin looks back: the history is emptied and cut off from the
    /// pipeline.
    Drop,
    /// The history is kept, and follows the pipeline where there is one.
    Keep { follow_pipeline: bool },
}

pub fn plan_event_history(records: &Vec<PluginRecord>, pipeline_present: bool) -> (out: HistoryPlan)
    ensures
        out == (if any_active(records@) && needs_history(records@) {
            HistoryPlan::Keep { follow_pipeline: pipeline_present }
        } else {
            HistoryPlan::Drop
        }),
{
    if runtime_plugins_enabled(records) && plugins_need_retained_event_history(records) {
        HistoryPlan::Keep { follow_pipeline: pipeline_present }
    } else {
        HistoryPlan::Drop
    }
}

/// What came of following the pipeline.
#[derive(Debug)]
pub enum HistorySync {
    /// There was no pipeline to follow.
    Nothing,
    /// The history is up to date; the pipeline keeps a place for it or does
    /// not.
    Synced { has_cursor: bool },
    Failed(String),
}

/// Whether the frame itself is added to the history: where the pipeline did
/// not give its events. A failure becomes a warning.
pub fn settle_event_history(sync: HistorySync, append_current_frame: bool) -> (out: (bool, Option<
    AnalysisWarning,
>))
    ensures
        out.0 == (append_current_frame && !(sync matches HistorySync::Synced { has_cursor }
            && has_cursor)),
        out.1 is Some <==> sync is Failed,
        out.1 matches Some(warning) ==> warning.source@ == "Plugin history"@ && warning.severity
            == AnalysisSeverity::Error && (sync matches HistorySync::Failed(error)
            && warning.message@ == error@),
{
    match sync {
        HistorySync::Nothing => (append_current_frame, None),
        HistorySync::Synced { has_cursor } => (append_current_frame && !has_cursor, None),
        HistorySync::Failed(error) => (
            append_current_frame,
            Some(
                AnalysisWarning {
                    source: "Plugin history".to_owned(),
                    severity: AnalysisSeverity::Error,
                    message: error,
                },
            ),
        ),
    }
}

/// What a change of the analysis leads to.
#[derive(Debug)]
pub struct AnalysisChange {
    /// Whether the frame on display is analysed again.
    pub rerun: bool,
    /// Whether the outputs are marked for a refresh.
    pub stale: bool,
    pub notice: String,
}

/// Tells of a change of the analysis. A paused replay analyses its frame
/// again, any other session waits for the next one.
pub fn note_analysis_change(mode: AppMode, replay_paused: bool, has_frame: bool, reason: &str) ->
    (out: AnalysisChange)
    ensures
        out.rerun == (mode == AppMode::Replaying && replay_paused && has_frame),
        out.stale == !(mode == AppMode::Replaying && replay_paused && !has_frame),
        out.notice@ == (if out.rerun {
            "Recomputed the current replay frame after "@ + reason@ + "."@
        } else if mode == AppMode::Replaying && replay_paused {
            reason@ + " changed, but there is no decoded frame to recompute yet."@
        } else {
            reason@
                + " changed. Investigation outputs will refresh on the next processed frame."@
        }),
{
    if mode == AppMode::Replaying && replay_paused {
        if has_frame {
            let mut notice = "Recomputed the current replay frame after ".to_owned();
            notice.append(reason);
            notice.append(".");
            AnalysisChange { rerun: true, stale: true, notice }
        } else {
            let mut notice = reason.to_owned();
            notice.append(" changed, but there is no decoded frame to recompute yet.");
            AnalysisChange { rerun: false, stale: false, notice }
        }
    } else {
        let mut notice = reason.to_owned();
        notice.append(
            " changed. Investigation outputs will refresh on the next processed frame.",
        );
        AnalysisChange { rerun: false, stale: true, notice }
    }
}

/// Plugins that are there and switched on are named, and no others are.
pub proof fn active_plugins_are_named(records: Seq<PluginRecord>, name: Seq<char>)
    ensures
        active_names(records).contains(name) <==> exists|i: int|
            0 <= i < records.len() && (#[trigger] records[i]).loaded && records[i].enabled
                && records[i].name@ == name,
    decreases records.len(),
{
    if records.len() > 0 {
        let rest = records.drop_last();
        active_plugins_are_named(rest, name);
        let before = active_names(rest);
        let names = active_names(records);
        let last = records[records.len() - 1];
        if before.contains(name) {
            let k = choose|k: int| 0 <= k < before.len() && before[k] == name;
            assert(names[k] == name);
            let i = choose|i: int|
                0 <= i < rest.len() && (#[trigger] rest[i]).loaded && rest[i].enabled
                    && rest[i].name@ == name;
            assert(records[i] == rest[i]);
        }
        if last.loaded && last.enabled && last.name@ == name {
            assert(names[before.len() as int] == name);
        }
        if names.contains(name) && !before.contains(name) {
            let k = choose|k: int| 0 <= k < names.len() && names[k] == name;
            if k < before.len() {
                assert(before[k] == name);
            }
            assert(last.loaded && last.enabled && last.name@ == name);
        }
        if exists|i: int|
            0 <= i < records.len() && (#[trigger] records[i]).loaded && records[i].enabled
                && records[i].name@ == name {
            let i = choose|i: int|
                0 <= i < records.len() && (#[trigger] records[i]).loaded && records[i].enabled
                    && records[i].name@ == name;
            if i < rest.len() {
                assert(rest[i] == records[i]);
            }
        }
    }
}

/// The missing dependencies are those that no plugin of the names meets.
pub proof fn missing_dependencies_are_not_met(
    dependencies: Seq<Seq<char>>,
    names: Seq<Seq<char>>,
    name: Seq<char>,
)
    ensures
        missing(dependencies, names).contains(name) <==> dependencies.contains(name)
            && !names.contains(name),
    decreases dependencies.len(),
{
    if dependencies.len() > 0 {
        let rest = dependencies.drop_last();
        missing_dependencies_are_not_met(rest, names, name);
        let before = missing(rest, names);
        let all = missing(dependencies, names);
        if rest.contains(name) {
            let k = choose|k: int| 0 <= k < rest.len() && rest[k] == name;
            assert(dependencies[k] == name);
        }
        if dependencies.contains(name) {
            let k = choose|k: int| 0 <= k < dependencies.len() && dependencies[k] == name;
            if k < rest.len() {
                assert(rest[k] == name);
            }
        }
        if before.contains(name) {
            let k = choose|k: int| 0 <= k < before.len() && before[k] == name;
            assert(all[k] == name);
        }
        if all.contains(name) {
            let k = choose|k: int| 0 <= k < all.len() && all[k] == name;
            if k < before.len() {
                assert(before[k] == name);
            }
        }
        if !names.contains(dependencies.last()) {
            assert(all[before.len() as int] == dependencies.last());
            assert(dependencies[dependencies.len() - 1] == dependencies.last());
        }
    }
}

/// The plugins run phase by phase: those of the frame, then those of the raw
/// events, then those of derived data; a plugin that is off or not there never
/// runs, and the events are asked for only where one works on them.
pub proof fn phases_have_their_order(records: Seq<PluginRecord>, i: int)
    requires
        0 <= i < records.len(),
    ensures
        !runs_after(PluginInput::FrameOnly, PluginInput::RawEvents),
        runs_after(PluginInput::RawEvents, PluginInput::FrameOnly),
        runs_after(PluginInput::DerivedData, PluginInput::RawEvents),
        runs_after(PluginInput::DerivedData, PluginInput::FrameOnly),
        !runs_after(PluginInput::RawEvents, PluginInput::DerivedData),
        !runs_after(records[i].input, records[i].input),
        records[i].loaded && records[i].enabled && records[i].input is RawEvents
            ==> needs_raw_events(records),
        records[i].loaded && records[i].enabled && records[i].retained_event_history
            ==> needs_history(records),
        records[i].loaded && records[i].enabled ==> any_active(records),
        (forall|k: int|
            0 <= k < records.len() ==> !(#[trigger] records[k]).loaded || !records[k].enabled)
            ==> !any_active(records) && !needs_history(records) && !needs_raw_events(records),
        (forall|k: int| 0 <= k < records.len() ==> !((#[trigger] records[k]).input is RawEvents))
            ==> !needs_raw_events(records),
        (forall|k: int| 0 <= k < records.len() ==> !(#[trigger] records[k]).retained_event_history)
            ==> !needs_history(records),
{
}

} // verus!
