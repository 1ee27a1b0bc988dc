//! What the panels around the viewer show, and what follows from what is done
//! in them.
use crate::external_tools::{status_label, ExternalToolStatus};
use crate::inspection_3d::{Investigation3dOutput, Investigation3dState};
use crate::investigation::InvestigationState;
use crate::plugins::{
    dependencies_text, missing, missing_dependencies, missing_text, PluginRecord,
};
use crate::analysis_runs::{joined, texts_of};
use crate::host_data::HostViewPlacement;
use crate::lists::filtered_list_holds;
use crate::registry::{
    placed_views, HostViewProviderKey, ResolvedHostDataset, ResolvedHostViewRegistry,
};
use crate::replay::AppMode;
use crate::rows::StableRowKey;
use crate::session::{Status, StatusView};
use crate::settings::{settled, GlobalSettingsConfig, PendingChanges, RuntimeSettings};
use crate::text::{decimal, push_decimal};
use crate::viewer::looking_at;
use vstd::prelude::*;

verus! {

/// Takes over what was done in the view of space, and gives the row that a
/// paused replay follows.
pub fn apply_3d_output(
    investigation: &mut InvestigationState,
    camera: &mut Investigation3dState,
    output: Investigation3dOutput,
) -> (out: Option<StableRowKey>)
    requires
        old(investigation).wf(),
    ensures
        final(investigation).wf(),
        *final(camera) == (match output.focus_target {
            Some(target) => looking_at(*old(camera), target),
            None => *old(camera),
        }),
        *final(investigation) == (InvestigationState {
            hovered_row: output.hovered,
            selected_rows: final(investigation).selected_rows,
            ..*old(investigation)
        }),
        output.selected is None ==> final(investigation).selected_rows == old(
            investigation,
        ).selected_rows,
        output.selected matches Some(key) ==> final(investigation).selected_rows.keys()
            == seq![key.pair()],
        out is Some <==> output.selected is Some,
        out matches Some(row) ==> row.pair() == output.selected->0.pair(),
{
    if let Some(target) = output.focus_target {
        camera.focus_on(target);
    }
    let out: Option<StableRowKey> = match output.selected {
        Some(key) => {
            let followed = key.copied();
            investigation.set_single_selection(key);
            Some(followed)
        },
        None => None,
    };
    investigation.hovered_row = output.hovered;
    out
}

/// What the panel tells of a plugin that runs.
#[derive(Debug)]
pub struct PluginCard {
    pub phase: String,
    pub metrics: String,
    pub dependencies: String,
    pub missing: Option<String>,
}

/// The datasets of a plugin.
pub open spec fn datasets_of(
    datasets: Seq<ResolvedHostDataset>,
    provider: HostViewProviderKey,
) -> Seq<ResolvedHostDataset> {
    datasets.filter(|dataset: ResolvedHostDataset| dataset.provider == provider)
}

fn count_datasets(datasets: &Vec<ResolvedHostDataset>, provider: HostViewProviderKey) -> (out:
    usize)
    ensures
        out == datasets_of(datasets@, provider).len(),
{
    let ghost wanted = |dataset: ResolvedHostDataset| dataset.provider == provider;
    let mut out: usize = 0;
    let mut i: usize = 0;
    proof {
        reveal(Seq::filter);
        assert(datasets@.take(0) =~= Seq::empty());
    }
    while i < datasets.len()
        invariant
            i <= datasets@.len(),
            out <= i,
            wanted == (|dataset: ResolvedHostDataset| dataset.provider == provider),
            out == datasets@.take(i as int).filter(wanted).len(),
        decreases datasets@.len() - i,
    {
        proof {
            reveal(Seq::filter);
            assert(datasets@.take(i + 1).drop_last() =~= datasets@.take(i as int));
            assert(datasets@.take(i + 1).last() == datasets@[i as int]);
        }
        if datasets[i].provider == provider {
            out = out + 1;
        }
        i = i + 1;
    }
    assert(datasets@.take(i as int) =~= datasets@);
    out
}

/// The line that counts what a plugin publishes.
pub open spec fn metrics_line(registry: ResolvedHostViewRegistry, provider: HostViewProviderKey) ->
    Seq<char> {
    "Metrics: "@ + decimal(datasets_of(registry.model().datasets, provider).len()) + " datasets, "@
        + decimal(
        placed_views(
            registry.model().views,
            Some(provider),
            HostViewPlacement::AnalysisPanel,
        ).len(),
    ) + " panel views"@
}

/// The card of a plugin. One that does not run has none.
pub fn plugin_card(
    registry: &ResolvedHostViewRegistry,
    index: usize,
    record: &PluginRecord,
    phase_label: &str,
    enabled_names: &Vec<String>,
) -> (out: Option<PluginCard>)
    ensures
        out is Some <==> record.is_active(),
        out matches Some(card) ==> {
            let absent = missing(texts_of(record.dependencies@), texts_of(enabled_names@));
            &&& card.phase@ == "Phase: "@ + phase_label@
            &&& card.metrics@ == metrics_line(*registry, HostViewProviderKey::Runtime(index))
            &&& card.dependencies@ == "Dependencies: "@ + (if record.dependencies@.len() == 0 {
                "none"@
            } else {
                joined(texts_of(record.dependencies@), ", "@)
            })
            &&& card.missing is Some <==> absent.len() > 0
            &&& card.missing matches Some(text) ==> text@ == "Missing dependency: "@ + joined(
                absent,
                ", "@,
            )
        },
{
    if !record.active() {
        return None;
    }
    let provider = HostViewProviderKey::Runtime(index);
    let mut phase = "Phase: ".to_owned();
    phase.append(phase_label);
    let mut metrics = "Metrics: ".to_owned();
    let dataset_count: usize = count_datasets(registry.datasets(), provider);
    push_decimal(&mut metrics, dataset_count as u64);
    metrics.append(" datasets, ");
    let views = registry.panel_views_for_provider(provider);
    let view_count: usize = views.len();
    push_decimal(&mut metrics, view_count as u64);
    metrics.append(" panel views");
    assert(metrics@ =~= metrics_line(*registry, provider));
    let absent = missing_dependencies(&record.dependencies, enabled_names);
    Some(
        PluginCard {
            phase,
            metrics,
            dependencies: dependencies_text(&record.dependencies),
            missing: missing_text(&absent),
        },
    )
}

/// Whether there is an analysis menu: something is loaded that it could turn
/// on or off.
pub fn analysis_menu_offered(hotpixel_enabled: bool, records: &Vec<PluginRecord>) -> (out: bool)
    ensures
        out == (hotpixel_enabled || exists|i: int|
            0 <= i < records@.len() && (#[trigger] records@[i]).loaded),
{
    if hotpixel_enabled {
        return true;
    }
    let mut i: usize = 0;
    while i < records.len()
        invariant
            i <= records@.len(),
            forall|k: int| 0 <= k < i ==> !(#[trigger] records@[k]).loaded,
        decreases records@.len() - i,
    {
        if records[i].loaded {
            assert(records@[i as int].loaded);
            return true;
        }
        i = i + 1;
    }
    false
}

/// The signs beside the status line.
#[derive(Debug)]
pub struct StatusSigns {
    /// What the external tool does, where there is one.
    pub tool: Option<String>,
    pub recording: bool,
    pub finished: bool,
}

pub fn status_signs(tool: &ExternalToolStatus, mode: AppMode, replay_finished: bool) -> (out:
    StatusSigns)
    ensures
        out.tool is Some <==> !(tool is Disconnected),
        out.tool matches Some(text) ==> text@ == "ImageJ: "@ + status_label(*tool),
        out.recording == (mode == AppMode::Recording),
        out.finished == (mode == AppMode::Replaying && replay_finished),
{
    let shown: Option<String> = if matches!(tool, ExternalToolStatus::Disconnected) {
        None
    } else {
        let mut text = "ImageJ: ".to_owned();
        let label = tool.label();
        text.append(label.as_str());
        Some(text)
    };
    StatusSigns {
        tool: shown,
        recording: mode == AppMode::Recording,
        finished: mode == AppMode::Replaying && replay_finished,
    }
}

/// A configuration that was read from a file.
#[derive(Debug)]
pub struct LoadedConfig {
    pub global: GlobalSettingsConfig,
    pub mask_file: Option<String>,
}

/// Takes a configuration over that was read from a file, and gives what is
/// then published, and the mask file. A file that could not be read changes
/// nothing but the error that is shown.
pub fn config_loaded(
    settings: &mut RuntimeSettings,
    pending: &mut PendingChanges,
    status: &mut Status,
    loaded: Result<LoadedConfig, String>,
) -> (out: Option<(GlobalSettingsConfig, String)>)
    ensures
        match loaded {
            Ok(config) => {
                &&& *final(settings) == settled(config.global)
                &&& *final(pending) == (PendingChanges { config_dirty: false, acq_dirty: false })
                &&& final(status)@ == (StatusView { last_error: None, ..old(status)@ })
                &&& out matches Some(published) && published.0 == settled(config.global).published()
                    && published.1@ == (match config.mask_file {
                    Some(file) => file@,
                    None => Seq::empty(),
                })
            },
            Err(error) => {
                &&& *final(settings) == *old(settings)
                &&& *final(pending) == *old(pending)
                &&& final(status)@ == (StatusView {
                    last_error: Some("load config failed: "@ + error@),
                    ..old(status)@
                })
                &&& out is None
            },
        },
{
    match loaded {
        Ok(config) => {
            let published = settings.apply_global_config(&config.global);
            pending.config_dirty = false;
            pending.acq_dirty = false;
            status.last_error = None;
            let mask_file = match config.mask_file {
                Some(file) => file,
                None => String::new(),
            };
            Some((published, mask_file))
        },
        Err(error) => {
            let mut text = "load config failed: ".to_owned();
            text.append(error.as_str());
            status.last_error = Some(text);
            None
        },
    }
}

/// Shows that a configuration could not be saved.
pub fn config_not_saved(status: &mut Status, error: &str)
    ensures
        final(status)@ == (StatusView {
            last_error: Some("save config failed: "@ + error@),
            ..old(status)@
        }),
{
    let mut text = "save config failed: ".to_owned();
    text.append(error);
    status.last_error = Some(text);
}

/// Takes note of plugins that were looked for or loaded again, and gives
/// whether the analysis begins anew.
pub fn plugins_reloaded(status: &mut Status, outcome: Result<(), String>) -> (out: bool)
    ensures
        out == (outcome is Ok),
        final(status)@ == (StatusView {
            last_error: match outcome {
                Ok(_) => None,
                Err(error) => Some(error@),
            },
            ..old(status)@
        }),
{
    match outcome {
        Ok(_) => {
            status.last_error = None;
            true
        },
        Err(error) => {
            status.last_error = Some(error);
            false
        },
    }
}

/// The datasets of a plugin are the registered ones that it provides.
pub proof fn plugins_have_their_own_datasets(
    datasets: Seq<ResolvedHostDataset>,
    provider: HostViewProviderKey,
    dataset: ResolvedHostDataset,
)
    ensures
        datasets_of(datasets, provider).contains(dataset) <==> datasets.contains(dataset)
            && dataset.provider == provider,
{
    filtered_list_holds(datasets, |d: ResolvedHostDataset| d.provider == provider, dataset);
}

} // verus!
