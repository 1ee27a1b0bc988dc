//! Resolution of what the plugins publish into one registry of datasets, views
//! and actions.
use crate::alike::Alike;
use crate::host_data::{
    HostActionDescriptor, HostActionScope, HostDatasetDescriptor, HostDatasetKind,
    HostViewDescriptor, HostViewKind, HostViewPlacement, HostViewRegistry,
};
use crate::lists::filtered_list_holds;
use crate::ordered_set::OrderedSet;
use crate::text::{blank, is_blank, same_text};
use vstd::prelude::*;

verus! {

/// The plugin that a resolved item comes from.
#[derive(Debug, Clone, Copy, PartialEq, Eq, Structural, Hash)]
pub enum HostViewProviderKey {
    Runtime(usize),
}

#[derive(Debug, Clone)]
pub struct HostRegistryContribution {
    pub provider: HostViewProviderKey,
    pub provider_name: String,
    pub registry: HostViewRegistry,
}

/// A descriptor with the plugin that owns it.
#[derive(Debug, Clone)]
pub struct Resolved<D> {
    pub descriptor: D,
    pub provider: HostViewProviderKey,
    pub provider_name: String,
}

pub type ResolvedHostDataset = Resolved<HostDatasetDescriptor>;

pub type ResolvedHostView = Resolved<HostViewDescriptor>;

pub type ResolvedHostAction = Resolved<HostActionDescriptor>;

impl Resolved<HostActionDescriptor> {
    /// The dataset that the action is about.
    pub fn dataset_id(&self) -> (out: &str)
        ensures
            out@ == self.descriptor.scope.dataset(),
    {
        match &self.descriptor.scope {
            HostActionScope::Dataset { dataset_id } => dataset_id.as_str(),
            HostActionScope::Row { dataset_id } => dataset_id.as_str(),
            HostActionScope::Cluster { dataset_id, .. } => dataset_id.as_str(),
        }
    }
}

/// A descriptor that is registered under an id.
pub trait Registered: Alike {
    /// What such a descriptor is called in a warning.
    spec fn noun() -> Seq<char>;

    spec fn id_view(&self) -> Seq<char>;

    fn noun_text() -> (out: &'static str)
        ensures
            out@ == Self::noun(),
    ;

    fn id_text(&self) -> (out: &str)
        ensures
            out@ == self.id_view(),
    ;
}

impl Registered for HostDatasetDescriptor {
    open spec fn noun() -> Seq<char> {
        "dataset"@
    }

    open spec fn id_view(&self) -> Seq<char> {
        self.id@
    }

    fn noun_text() -> (out: &'static str) {
        "dataset"
    }

    fn id_text(&self) -> (out: &str) {
        self.id.as_str()
    }
}

impl Registered for HostViewDescriptor {
    open spec fn noun() -> Seq<char> {
        "view"@
    }

    open spec fn id_view(&self) -> Seq<char> {
        self.id@
    }

    fn noun_text() -> (out: &'static str) {
        "view"
    }

    fn id_text(&self) -> (out: &str) {
        self.id.as_str()
    }
}

impl Registered for HostActionDescriptor {
    open spec fn noun() -> Seq<char> {
        "action"@
    }

    open spec fn id_view(&self) -> Seq<char> {
        self.id@
    }

    fn noun_text() -> (out: &'static str) {
        "action"
    }

    fn id_text(&self) -> (out: &str) {
        self.id.as_str()
    }
}

// ---------------------------------------------------------------------------
// Claims on ids
// ---------------------------------------------------------------------------
/// The first item with the given id, by its place.
pub open spec fn find_id<D: Registered>(items: Seq<Resolved<D>>, id: Seq<char>) -> Option<int>
    decreases items.len(),
{
    if items.len() == 0 {
        None
    } else {
        match find_id(items.drop_last(), id) {
            Some(i) => Some(i),
            None => if items.last().descriptor.id_view() == id {
                Some(items.len() - 1)
            } else {
                None
            },
        }
    }
}

fn index_of_id<D: Registered>(items: &Vec<Resolved<D>>, id: &str) -> (out: Option<usize>)
    ensures
        match out {
            Some(i) => find_id(items@, id@) == Some(i as int),
            None => find_id(items@, id@) is None,
        },
        out matches Some(i) ==> i < items@.len() && items@[i as int].descriptor.id_view() == id@,
{
    let mut i: usize = 0;
    while i < items.len()
        invariant
            i <= items@.len(),
            find_id(items@.take(i as int), id@) is None,
        decreases items@.len() - i,
    {
        assert(items@.take(i + 1).drop_last() =~= items@.take(i as int));
        if same_text(items[i].descriptor.id_text(), id) {
            proof {
                find_id_prefix(items@, i + 1, id@);
            }
            return Some(i);
        }
        i = i + 1;
    }
    assert(items@.take(items@.len() as int) =~= items@);
    None
}

/// The ids of items.
fn ids_of<D: Registered>(items: &Vec<Resolved<D>>) -> (out: OrderedSet<String>)
    ensures
        out.wf(),
        forall|id: Seq<char>| #[trigger] out.holds(id) <==> find_id(items@, id) is Some,
{
    let mut out: OrderedSet<String> = OrderedSet::new();
    let mut i: usize = 0;
    assert(items@.take(0) =~= Seq::empty());
    while i < items.len()
        invariant
            i <= items@.len(),
            out.wf(),
            forall|id: Seq<char>| #[trigger]
                out.holds(id) <==> find_id(items@.take(i as int), id) is Some,
        decreases items@.len() - i,
    {
        assert(items@.take(i + 1).drop_last() =~= items@.take(i as int));
        let id = items[i].descriptor.id_text().to_owned();
        out.insert(id);
        i = i + 1;
    }
    assert(items@.take(items@.len() as int) =~= items@);
    out
}

/// What is found among the first items is found among all.
proof fn find_id_prefix<D: Registered>(items: Seq<Resolved<D>>, n: int, id: Seq<char>)
    requires
        0 <= n <= items.len(),
        find_id(items.take(n), id) is Some,
    ensures
        find_id(items, id) == find_id(items.take(n), id),
    decreases items.len(),
{
    if n == items.len() {
        assert(items.take(n) =~= items);
    } else {
        assert(items.drop_last().take(n) =~= items.take(n));
        find_id_prefix(items.drop_last(), n, id);
    }
}

/// What `find_id` gives is the first place of the id.
pub proof fn find_id_is_first<D: Registered>(items: Seq<Resolved<D>>, id: Seq<char>)
    ensures
        match find_id(items, id) {
            Some(i) => 0 <= i < items.len() && items[i].descriptor.id_view() == id && forall|j: int|
                0 <= j < i ==> (#[trigger] items[j]).descriptor.id_view() != id,
            None => forall|j: int|
                0 <= j < items.len() ==> (#[trigger] items[j]).descriptor.id_view() != id,
        },
    decreases items.len(),
{
    if items.len() > 0 {
        let rest = items.drop_last();
        find_id_is_first(rest, id);
        assert(forall|j: int| 0 <= j < rest.len() ==> rest[j] == items[j]);
    }
}

/// The items of one sort that are registered so far, with the warnings.
pub struct Claims<D> {
    pub items: Seq<Resolved<D>>,
    pub warnings: Seq<Seq<char>>,
}

/// The warning on a descriptor without an id.
pub open spec fn empty_id_warning<D: Registered>(provider_name: Seq<char>) -> Seq<char> {
    "Ignoring "@ + D::noun() + " with an empty id from "@ + provider_name + "."@
}

/// The warning on a descriptor whose id another descriptor holds.
pub open spec fn conflict_warning<D: Registered>(
    id: Seq<char>,
    provider_name: Seq<char>,
    owner_name: Seq<char>,
) -> Seq<char> {
    "Ignoring conflicting "@ + D::noun() + " id "@ + id + " from "@ + provider_name
        + "; it does not match the earlier descriptor from "@ + owner_name + "."@
}

/// One descriptor's claim on its id: a new id is registered, an equal
/// descriptor takes over the ownership, and anything else is a warning.
pub open spec fn claim<D: Registered>(
    claims: Claims<D>,
    provider: HostViewProviderKey,
    provider_name: String,
    descriptor: D,
) -> Claims<D> {
    if is_blank(descriptor.id_view()) {
        Claims {
            items: claims.items,
            warnings: claims.warnings.push(empty_id_warning::<D>(provider_name@)),
        }
    } else {
        match find_id(claims.items, descriptor.id_view()) {
            Some(i) => {
                let current = claims.items[i];
                if current.descriptor.alike(&descriptor) {
                    Claims {
                        items: claims.items.update(
                            i,
                            Resolved { descriptor: current.descriptor, provider, provider_name },
                        ),
                        warnings: claims.warnings,
                    }
                } else {
                    Claims {
                        items: claims.items,
                        warnings: claims.warnings.push(
                            conflict_warning::<D>(
                                descriptor.id_view(),
                                provider_name@,
                                current.provider_name@,
                            ),
                        ),
                    }
                }
            },
            None => Claims {
                items: claims.items.push(Resolved { descriptor, provider, provider_name }),
                warnings: claims.warnings,
            },
        }
    }
}

/// The claims of one plugin's descriptors, in order.
pub open spec fn claim_all<D: Registered>(
    claims: Claims<D>,
    provider: HostViewProviderKey,
    provider_name: String,
    descriptors: Seq<D>,
) -> Claims<D>
    decreases descriptors.len(),
{
    if descriptors.len() == 0 {
        claims
    } else {
        claim(
            claim_all(claims, provider, provider_name, descriptors.drop_last()),
            provider,
            provider_name,
            descriptors.last(),
        )
    }
}

/// The texts of several strings.
pub open spec fn texts(strings: Seq<String>) -> Seq<Seq<char>> {
    strings.map_values(|s: String| s@)
}

fn register<D: Registered>(
    items: &mut Vec<Resolved<D>>,
    warnings: &mut Vec<String>,
    provider: HostViewProviderKey,
    provider_name: &String,
    descriptor: D,
)
    ensures
        (Claims { items: final(items)@, warnings: texts(final(warnings)@) }) == claim(
            Claims { items: old(items)@, warnings: texts(old(warnings)@) },
            provider,
            *provider_name,
            descriptor,
        ),
{
    let ghost before = Claims { items: items@, warnings: texts(warnings@) };
    if blank(descriptor.id_text()) {
        let mut warning = "Ignoring ".to_owned();
        warning.append(D::noun_text());
        warning.append(" with an empty id from ");
        warning.append(provider_name.as_str());
        warning.append(".");
        warnings.push(warning);
        assert(texts(warnings@) =~= before.warnings.push(
            empty_id_warning::<D>(provider_name@),
        ));
        return;
    }
    match index_of_id(items, descriptor.id_text()) {
        Some(i) => {
            if items[i].descriptor.same(&descriptor) {
                items[i].provider = provider;
                items[i].provider_name = provider_name.clone();
                assert(items@ =~= before.items.update(
                    i as int,
                    Resolved {
                        descriptor: before.items[i as int].descriptor,
                        provider,
                        provider_name: *provider_name,
                    },
                ));
            } else {
                let mut warning = "Ignoring conflicting ".to_owned();
                warning.append(D::noun_text());
                warning.append(" id ");
                warning.append(descriptor.id_text());
                warning.append(" from ");
                warning.append(provider_name.as_str());
                warning.append("; it does not match the earlier descriptor from ");
                warning.append(items[i].provider_name.as_str());
                warning.append(".");
                warnings.push(warning);
                assert(texts(warnings@) =~= before.warnings.push(
                    conflict_warning::<D>(
                        descriptor.id_view(),
                        provider_name@,
                        items@[i as int].provider_name@,
                    ),
                ));
            }
        },
        None => {
            items.push(Resolved { descriptor, provider, provider_name: provider_name.clone() });
        },
    }
}

fn register_all<D: Registered>(
    items: &mut Vec<Resolved<D>>,
    warnings: &mut Vec<String>,
    provider: HostViewProviderKey,
    provider_name: &String,
    descriptors: Vec<D>,
)
    ensures
        (Claims { items: final(items)@, warnings: texts(final(warnings)@) }) == claim_all(
            Claims { items: old(items)@, warnings: texts(old(warnings)@) },
            provider,
            *provider_name,
            descriptors@,
        ),
{
    let ghost before = Claims { items: items@, warnings: texts(warnings@) };
    let ghost all = descriptors@;
    for descriptor in it: descriptors
        invariant
            it.seq() == all,
            (Claims { items: items@, warnings: texts(warnings@) }) == claim_all(
                before,
                provider,
                *provider_name,
                all.take(it.index() as int),
            ),
    {
        proof {
            assert(all.take(it.index() + 1).drop_last() =~= all.take(it.index() as int));
            assert(all.take(it.index() + 1).last() == descriptor);
        }
        register(items, warnings, provider, provider_name, descriptor);
    }
    assert(all.take(all.len() as int) =~= all);
}

// ---------------------------------------------------------------------------
// The registry
// ---------------------------------------------------------------------------
/// What a registry holds.
pub struct RegistryModel {
    pub datasets: Seq<ResolvedHostDataset>,
    pub views: Seq<ResolvedHostView>,
    pub actions: Seq<ResolvedHostAction>,
    pub warnings: Seq<Seq<char>>,
}

/// One plugin's claims: its datasets, then its views, then its actions.
pub open spec fn contribute(
    model: RegistryModel,
    contribution: HostRegistryContribution,
) -> RegistryModel {
    let datasets = claim_all(
        Claims { items: model.datasets, warnings: model.warnings },
        contribution.provider,
        contribution.provider_name,
        contribution.registry.datasets@,
    );
    let views = claim_all(
        Claims { items: model.views, warnings: datasets.warnings },
        contribution.provider,
        contribution.provider_name,
        contribution.registry.views@,
    );
    let actions = claim_all(
        Claims { items: model.actions, warnings: views.warnings },
        contribution.provider,
        contribution.provider_name,
        contribution.registry.actions@,
    );
    RegistryModel {
        datasets: datasets.items,
        views: views.items,
        actions: actions.items,
        warnings: actions.warnings,
    }
}

/// The claims of several plugins, in order.
pub open spec fn contributed(contributions: Seq<HostRegistryContribution>) -> RegistryModel
    decreases contributions.len(),
{
    if contributions.len() == 0 {
        RegistryModel {
            datasets: Seq::empty(),
            views: Seq::empty(),
            actions: Seq::empty(),
            warnings: Seq::empty(),
        }
    } else {
        contribute(contributed(contributions.drop_last()), contributions.last())
    }
}

/// Whether a view of this kind can show a dataset of that kind.
pub open spec fn kind_fits(view_kind: HostViewKind, dataset_kind: HostDatasetKind) -> bool {
    match view_kind {
        HostViewKind::ImageWindow => dataset_kind is Image2dV1,
        HostViewKind::LineSeriesWindow => dataset_kind is Series1dV1,
        _ => dataset_kind is TableV1,
    }
}

pub fn host_view_kind_matches_dataset(
    view_kind: &HostViewKind,
    dataset_kind: &HostDatasetKind,
) -> (out: bool)
    ensures
        out == kind_fits(*view_kind, *dataset_kind),
        view_kind is CompactTable ==> out == (dataset_kind is TableV1),
        view_kind is TableWindow ==> out == (dataset_kind is TableV1),
        view_kind is Density2dFromTable ==> out == (dataset_kind is TableV1),
        view_kind is Scatter2dFromTable ==> out == (dataset_kind is TableV1),
        view_kind is Scatter3dFromTable ==> out == (dataset_kind is TableV1),
        view_kind is ImageWindow ==> out == (dataset_kind is Image2dV1),
        view_kind is LineSeriesWindow ==> out == (dataset_kind is Series1dV1),
{
    match view_kind {
        HostViewKind::ImageWindow => matches!(dataset_kind, HostDatasetKind::Image2dV1),
        HostViewKind::LineSeriesWindow => matches!(dataset_kind, HostDatasetKind::Series1dV1),
        _ => matches!(dataset_kind, HostDatasetKind::TableV1(_)),
    }
}

/// What a kind of view is called in a warning.
pub open spec fn view_kind_name(kind: HostViewKind) -> Seq<char> {
    match kind {
        HostViewKind::CompactTable => "compact table"@,
        HostViewKind::TableWindow => "table"@,
        HostViewKind::Density2dFromTable { .. } => "density"@,
        HostViewKind::Scatter2dFromTable { .. } => "scatter"@,
        HostViewKind::Scatter3dFromTable { .. } => "scatter-3d"@,
        HostViewKind::ImageWindow => "image"@,
        HostViewKind::LineSeriesWindow => "line-series"@,
    }
}

pub fn host_view_kind_label(kind: &HostViewKind) -> (out: &'static str)
    ensures
        out@ == view_kind_name(*kind),
{
    match kind {
        HostViewKind::CompactTable => "compact table",
        HostViewKind::TableWindow => "table",
        HostViewKind::Density2dFromTable { .. } => "density",
        HostViewKind::Scatter2dFromTable { .. } => "scatter",
        HostViewKind::Scatter3dFromTable { .. } => "scatter-3d",
        HostViewKind::ImageWindow => "image",
        HostViewKind::LineSeriesWindow => "line-series",
    }
}

/// The warning on a view or an action whose dataset nobody published.
pub open spec fn unresolved_warning<D: Registered>(
    id: Seq<char>,
    provider_name: Seq<char>,
    dataset_id: Seq<char>,
) -> Seq<char> {
    "Ignoring "@ + D::noun() + " id "@ + id + " from "@ + provider_name + " because dataset "@
        + dataset_id + " is not resolved."@
}

/// The warning on a view that cannot show its dataset.
pub open spec fn misfit_warning(view: ResolvedHostView, dataset: ResolvedHostDataset) -> Seq<char> {
    "Ignoring view id "@ + view.descriptor.id@ + " from "@ + view.provider_name@ + " because "@
        + view_kind_name(view.descriptor.kind) + " views do not match dataset "@
        + view.descriptor.dataset_id@ + " ("@ + dataset.descriptor.kind_text@ + ")."@
}

/// The views whose dataset is resolved and can be shown by them.
pub open spec fn kept_views(
    views: Seq<ResolvedHostView>,
    datasets: Seq<ResolvedHostDataset>,
    warnings: Seq<Seq<char>>,
) -> Claims<HostViewDescriptor>
    decreases views.len(),
{
    if views.len() == 0 {
        Claims { items: Seq::empty(), warnings }
    } else {
        let rest = kept_views(views.drop_last(), datasets, warnings);
        let view = views.last();
        match find_id(datasets, view.descriptor.dataset_id@) {
            None => Claims {
                items: rest.items,
                warnings: rest.warnings.push(
                    unresolved_warning::<HostViewDescriptor>(
                        view.descriptor.id@,
                        view.provider_name@,
                        view.descriptor.dataset_id@,
                    ),
                ),
            },
            Some(i) => if kind_fits(view.descriptor.kind, datasets[i].descriptor.kind) {
                Claims { items: rest.items.push(view), warnings: rest.warnings }
            } else {
                Claims {
                    items: rest.items,
                    warnings: rest.warnings.push(misfit_warning(view, datasets[i])),
                }
            },
        }
    }
}

/// The actions whose dataset is resolved.
pub open spec fn kept_actions(
    actions: Seq<ResolvedHostAction>,
    datasets: Seq<ResolvedHostDataset>,
    warnings: Seq<Seq<char>>,
) -> Claims<HostActionDescriptor>
    decreases actions.len(),
{
    if actions.len() == 0 {
        Claims { items: Seq::empty(), warnings }
    } else {
        let rest = kept_actions(actions.drop_last(), datasets, warnings);
        let action = actions.last();
        if find_id(datasets, action.descriptor.scope.dataset()) is Some {
            Claims { items: rest.items.push(action), warnings: rest.warnings }
        } else {
            Claims {
                items: rest.items,
                warnings: rest.warnings.push(
                    unresolved_warning::<HostActionDescriptor>(
                        action.descriptor.id@,
                        action.provider_name@,
                        action.descriptor.scope.dataset(),
                    ),
                ),
            }
        }
    }
}

/// The registry of several plugins.
pub open spec fn resolution(contributions: Seq<HostRegistryContribution>) -> RegistryModel {
    let all = contributed(contributions);
    let views = kept_views(all.views, all.datasets, all.warnings);
    let actions = kept_actions(all.actions, all.datasets, views.warnings);
    RegistryModel {
        datasets: all.datasets,
        views: views.items,
        actions: actions.items,
        warnings: actions.warnings,
    }
}

#[derive(Debug, Clone)]
pub struct ResolvedHostViewRegistry {
    datasets: Vec<ResolvedHostDataset>,
    views: Vec<ResolvedHostView>,
    actions: Vec<ResolvedHostAction>,
    warnings: Vec<String>,
}

/// The views of a registry in the given place, of one plugin or of all.
pub open spec fn placed_views(
    views: Seq<ResolvedHostView>,
    provider: Option<HostViewProviderKey>,
    placement: HostViewPlacement,
) -> Seq<ResolvedHostView> {
    views.filter(
        |view: ResolvedHostView|
            (provider matches Some(p) ==> view.provider == p) && view.descriptor.placement
                == placement,
    )
}

impl ResolvedHostViewRegistry {
    pub closed spec fn model(&self) -> RegistryModel {
        RegistryModel {
            datasets: self.datasets@,
            views: self.views@,
            actions: self.actions@,
            warnings: texts(self.warnings@),
        }
    }

    /// A registry without anything in it.
    pub fn empty() -> (out: Self)
        ensures
            out.model() == resolution(Seq::empty()),
    {
        let out = ResolvedHostViewRegistry {
            datasets: Vec::new(),
            views: Vec::new(),
            actions: Vec::new(),
            warnings: Vec::new(),
        };
        assert(out.model().warnings =~= Seq::<Seq<char>>::empty());
        out
    }

    pub fn datasets(&self) -> (out: &Vec<ResolvedHostDataset>)
        ensures
            out@ == self.model().datasets,
    {
        &self.datasets
    }

    pub fn views(&self) -> (out: &Vec<ResolvedHostView>)
        ensures
            out@ == self.model().views,
    {
        &self.views
    }

    pub fn actions(&self) -> (out: &Vec<ResolvedHostAction>)
        ensures
            out@ == self.model().actions,
    {
        &self.actions
    }

    pub fn warnings(&self) -> (out: &Vec<String>)
        ensures
            texts(out@) == self.model().warnings,
    {
        &self.warnings
    }

    /// The dataset with the given id.
    pub fn dataset(&self, id: &str) -> (out: Option<&ResolvedHostDataset>)
        ensures
            match find_id(self.model().datasets, id@) {
                Some(i) => out == Some(&self.model().datasets[i]),
                None => out is None,
            },
    {
        match index_of_id(&self.datasets, id) {
            Some(i) => Some(&self.datasets[i]),
            None => None,
        }
    }

    /// The ids of the views.
    pub fn view_ids(&self) -> (out: OrderedSet<String>)
        ensures
            out.wf(),
            forall|id: Seq<char>| #[trigger]
                out.holds(id) <==> find_id(self.model().views, id) is Some,
    {
        ids_of(&self.views)
    }

    /// The ids of the datasets.
    pub fn dataset_ids(&self) -> (out: OrderedSet<String>)
        ensures
            out.wf(),
            forall|id: Seq<char>| #[trigger]
                out.holds(id) <==> find_id(self.model().datasets, id) is Some,
    {
        ids_of(&self.datasets)
    }

    /// The view with the given id.
    pub fn view(&self, id: &str) -> (out: Option<&ResolvedHostView>)
        ensures
            match find_id(self.model().views, id@) {
                Some(i) => out == Some(&self.model().views[i]),
                None => out is None,
            },
    {
        match index_of_id(&self.views, id) {
            Some(i) => Some(&self.views[i]),
            None => None,
        }
    }

    fn placed(
        &self,
        provider: Option<HostViewProviderKey>,
        placement: HostViewPlacement,
    ) -> (out: Vec<&ResolvedHostView>)
        ensures
            out@.map_values(|view: &ResolvedHostView| *view) == placed_views(
                self.model().views,
                provider,
                placement,
            ),
    {
        let mut out: Vec<&ResolvedHostView> = Vec::new();
        let mut i: usize = 0;
        let ghost keep = |view: ResolvedHostView|
            (provider matches Some(p) ==> view.provider == p) && view.descriptor.placement
                == placement;
        proof {
            reveal(Seq::filter);
            assert(self.views@.take(0).filter(keep) =~= Seq::<ResolvedHostView>::empty());
            assert(out@.map_values(|view: &ResolvedHostView| *view) =~= Seq::<
                ResolvedHostView,
            >::empty());
        }
        while i < self.views.len()
            invariant
                i <= self.views@.len(),
                keep == (|view: ResolvedHostView|
                    (provider matches Some(p) ==> view.provider == p) && view.descriptor.placement
                        == placement),
                out@.map_values(|view: &ResolvedHostView| *view) == self.views@.take(
                    i as int,
                ).filter(keep),
            decreases self.views@.len() - i,
        {
            let view = &self.views[i];
            let owned = match provider {
                Some(p) => view.provider == p,
                None => true,
            };
            proof {
                reveal(Seq::filter);
                assert(self.views@.take(i + 1).drop_last() =~= self.views@.take(i as int));
            }
            if owned && view.descriptor.placement == placement {
                let ghost before = out@;
                out.push(view);
                assert(out@.map_values(|view: &ResolvedHostView| *view) =~= before.map_values(
                    |view: &ResolvedHostView| *view,
                ).push(*view));
            }
            i = i + 1;
        }
        assert(self.views@.take(self.views@.len() as int) =~= self.views@);
        out
    }

    /// The views of a plugin that stand in the analysis panel.
    pub fn panel_views_for_provider(&self, provider: HostViewProviderKey) -> (out: Vec<
        &ResolvedHostView,
    >)
        ensures
            out@.map_values(|view: &ResolvedHostView| *view) == placed_views(
                self.model().views,
                Some(provider),
                HostViewPlacement::AnalysisPanel,
            ),
    {
        self.placed(Some(provider), HostViewPlacement::AnalysisPanel)
    }

    /// The views that have a window of their own.
    pub fn window_views(&self) -> (out: Vec<&ResolvedHostView>)
        ensures
            out@.map_values(|view: &ResolvedHostView| *view) == placed_views(
                self.model().views,
                None,
                HostViewPlacement::Window,
            ),
    {
        self.placed(None, HostViewPlacement::Window)
    }

    /// The views of a plugin that have a window of their own.
    pub fn window_views_for_provider(&self, provider: HostViewProviderKey) -> (out: Vec<
        &ResolvedHostView,
    >)
        ensures
            out@.map_values(|view: &ResolvedHostView| *view) == placed_views(
                self.model().views,
                Some(provider),
                HostViewPlacement::Window,
            ),
    {
        self.placed(Some(provider), HostViewPlacement::Window)
    }
}

/// Resets the plugin that owns a dataset, and no other.
pub fn reset_provider_for_dataset(
    dataset: &ResolvedHostDataset,
    reset_runtime: impl FnOnce(usize),
)
    requires
        dataset.provider matches HostViewProviderKey::Runtime(index) && call_requires(
            reset_runtime,
            (index,),
        ),
    ensures
        dataset.provider matches HostViewProviderKey::Runtime(index) && call_ensures(
            reset_runtime,
            (index,),
            (),
        ),
{
    match dataset.provider {
        HostViewProviderKey::Runtime(index) => reset_runtime(index),
    }
}

fn keep_views(
    views: Vec<ResolvedHostView>,
    datasets: &Vec<ResolvedHostDataset>,
    warnings: &mut Vec<String>,
) -> (out: Vec<ResolvedHostView>)
    ensures
        (Claims { items: out@, warnings: texts(final(warnings)@) }) == kept_views(
            views@,
            datasets@,
            texts(old(warnings)@),
        ),
{
    let ghost all = views@;
    let ghost before = texts(warnings@);
    let mut out: Vec<ResolvedHostView> = Vec::new();
    for view in it: views
        invariant
            it.seq() == all,
            (Claims { items: out@, warnings: texts(warnings@) }) == kept_views(
                all.take(it.index() as int),
                datasets@,
                before,
            ),
    {
        let ghost so_far = texts(warnings@);
        proof {
            assert(all.take(it.index() + 1).drop_last() =~= all.take(it.index() as int));
            assert(all.take(it.index() + 1).last() == view);
        }
        match index_of_id(datasets, view.descriptor.dataset_id.as_str()) {
            None => {
                let mut warning = "Ignoring ".to_owned();
                warning.append("view");
                warning.append(" id ");
                warning.append(view.descriptor.id.as_str());
                warning.append(" from ");
                warning.append(view.provider_name.as_str());
                warning.append(" because dataset ");
                warning.append(view.descriptor.dataset_id.as_str());
                warning.append(" is not resolved.");
                warnings.push(warning);
                assert(texts(warnings@) =~= so_far.push(
                    unresolved_warning::<HostViewDescriptor>(
                        view.descriptor.id@,
                        view.provider_name@,
                        view.descriptor.dataset_id@,
                    ),
                ));
            },
            Some(i) => {
                if host_view_kind_matches_dataset(
                    &view.descriptor.kind,
                    &datasets[i].descriptor.kind,
                ) {
                    out.push(view);
                } else {
                    let mut warning = "Ignoring view id ".to_owned();
                    warning.append(view.descriptor.id.as_str());
                    warning.append(" from ");
                    warning.append(view.provider_name.as_str());
                    warning.append(" because ");
                    warning.append(host_view_kind_label(&view.descriptor.kind));
                    warning.append(" views do not match dataset ");
                    warning.append(view.descriptor.dataset_id.as_str());
                    warning.append(" (");
                    warning.append(datasets[i].descriptor.kind_text.as_str());
                    warning.append(").");
                    warnings.push(warning);
                    assert(texts(warnings@) =~= so_far.push(
                        misfit_warning(view, datasets@[i as int]),
                    ));
                }
            },
        }
    }
    assert(all.take(all.len() as int) =~= all);
    out
}

fn keep_actions(
    actions: Vec<ResolvedHostAction>,
    datasets: &Vec<ResolvedHostDataset>,
    warnings: &mut Vec<String>,
) -> (out: Vec<ResolvedHostAction>)
    ensures
        (Claims { items: out@, warnings: texts(final(warnings)@) }) == kept_actions(
            actions@,
            datasets@,
            texts(old(warnings)@),
        ),
{
    let ghost all = actions@;
    let ghost before = texts(warnings@);
    let mut out: Vec<ResolvedHostAction> = Vec::new();
    for action in it: actions
        invariant
            it.seq() == all,
            (Claims { items: out@, warnings: texts(warnings@) }) == kept_actions(
                all.take(it.index() as int),
                datasets@,
                before,
            ),
    {
        let ghost so_far = texts(warnings@);
        proof {
            assert(all.take(it.index() + 1).drop_last() =~= all.take(it.index() as int));
            assert(all.take(it.index() + 1).last() == action);
        }
        match index_of_id(datasets, action.dataset_id()) {
            None => {
                let mut warning = "Ignoring ".to_owned();
                warning.append("action");
                warning.append(" id ");
                warning.append(action.descriptor.id.as_str());
                warning.append(" from ");
                warning.append(action.provider_name.as_str());
                warning.append(" because dataset ");
                warning.append(action.dataset_id());
                warning.append(" is not resolved.");
                warnings.push(warning);
                assert(texts(warnings@) =~= so_far.push(
                    unresolved_warning::<HostActionDescriptor>(
                        action.descriptor.id@,
                        action.provider_name@,
                        action.descriptor.scope.dataset(),
                    ),
                ));
            },
            Some(_) => {
                out.push(action);
            },
        }
    }
    assert(all.take(all.len() as int) =~= all);
    out
}

/// Resolves what the plugins publish into one registry.
pub fn resolve_host_view_registry(contributions: Vec<HostRegistryContribution>) -> (out:
    ResolvedHostViewRegistry)
    ensures
        out.model() == resolution(contributions@),
{
    let ghost all = contributions@;
    let mut datasets: Vec<ResolvedHostDataset> = Vec::new();
    let mut views: Vec<ResolvedHostView> = Vec::new();
    let mut actions: Vec<ResolvedHostAction> = Vec::new();
    let mut warnings: Vec<String> = Vec::new();
    assert(texts(warnings@) =~= Seq::<Seq<char>>::empty());
    for contribution in it: contributions
        invariant
            it.seq() == all,
            (RegistryModel {
                datasets: datasets@,
                views: views@,
                actions: actions@,
                warnings: texts(warnings@),
            }) == contributed(all.take(it.index() as int)),
    {
        proof {
            assert(all.take(it.index() + 1).drop_last() =~= all.take(it.index() as int));
            assert(all.take(it.index() + 1).last() == contribution);
        }
        let provider = contribution.provider;
        let provider_name = contribution.provider_name;
        let registry = contribution.registry;
        register_all(&mut datasets, &mut warnings, provider, &provider_name, registry.datasets);
        register_all(&mut views, &mut warnings, provider, &provider_name, registry.views);
        register_all(&mut actions, &mut warnings, provider, &provider_name, registry.actions);
    }
    assert(all.take(all.len() as int) =~= all);
    let views = keep_views(views, &datasets, &mut warnings);
    let actions = keep_actions(actions, &datasets, &mut warnings);
    ResolvedHostViewRegistry { datasets, views, actions, warnings }
}

// ---------------------------------------------------------------------------
// Laws
// ---------------------------------------------------------------------------
/// No id is registered twice, and none is blank.
pub open spec fn ids_unique<D: Registered>(items: Seq<Resolved<D>>) -> bool {
    &&& forall|i: int, j: int|
        0 <= i < j < items.len() ==> (#[trigger] items[i]).descriptor.id_view() != (
        #[trigger] items[j]).descriptor.id_view()
    &&& forall|i: int|
        0 <= i < items.len() ==> !is_blank((#[trigger] items[i]).descriptor.id_view())
}

/// A claim keeps the registered ids unique and every registered descriptor in
/// its place: who comes first keeps the id, and who publishes an equal
/// descriptor later becomes its owner. Whatever is not registered is warned
/// about.
pub proof fn claim_keeps_first_descriptors<D: Registered>(
    claims: Claims<D>,
    provider: HostViewProviderKey,
    provider_name: String,
    descriptor: D,
)
    requires
        ids_unique(claims.items),
    ensures
        ({
            let after = claim(claims, provider, provider_name, descriptor);
            &&& ids_unique(after.items)
            &&& claims.items.len() <= after.items.len()
            &&& forall|i: int|
                0 <= i < claims.items.len() ==> (#[trigger] after.items[i]).descriptor
                    == claims.items[i].descriptor
            &&& claims.warnings =~= after.warnings.take(claims.warnings.len() as int)
            &&& match find_id(after.items, descriptor.id_view()) {
                Some(i) => after.warnings.len() > claims.warnings.len() || (
                after.items[i].provider == provider && after.items[i].provider_name
                    == provider_name),
                None => after.warnings.len() > claims.warnings.len(),
            }
        }),
{
    let after = claim(claims, provider, provider_name, descriptor);
    let id = descriptor.id_view();
    find_id_is_first(claims.items, id);
    find_id_is_first(after.items, id);
    assert(claims.warnings =~= after.warnings.take(claims.warnings.len() as int));
    if !is_blank(id) {
        match find_id(claims.items, id) {
            Some(i) => {
                if claims.items[i].descriptor.alike(&descriptor) {
                    assert(forall|j: int|
                        0 <= j < claims.items.len() ==> (#[trigger] after.items[j]).descriptor
                            == claims.items[j].descriptor);
                    assert(claims.items[i].descriptor.id_view() == id);
                    assert(after.items[i].descriptor.id_view() == id);
                    assert(ids_unique(after.items)) by {
                        assert forall|a: int, b: int| 0 <= a < b < after.items.len() implies (
                        #[trigger] after.items[a]).descriptor.id_view() != (
                        #[trigger] after.items[b]).descriptor.id_view() by {
                            assert(claims.items[a].descriptor.id_view()
                                != claims.items[b].descriptor.id_view());
                        }
                        assert forall|a: int| 0 <= a < after.items.len() implies !is_blank(
                            (#[trigger] after.items[a]).descriptor.id_view(),
                        ) by {
                            assert(!is_blank(claims.items[a].descriptor.id_view()));
                        }
                    }
                }
            },
            None => {
                let n = claims.items.len() as int;
                assert(after.items[n].descriptor.id_view() == id);
                assert(forall|j: int| 0 <= j < n ==> after.items[j] == claims.items[j]);
            },
        }
    }
}

proof fn claim_all_keeps_unique<D: Registered>(
    claims: Claims<D>,
    provider: HostViewProviderKey,
    provider_name: String,
    descriptors: Seq<D>,
)
    requires
        ids_unique(claims.items),
    ensures
        ids_unique(claim_all(claims, provider, provider_name, descriptors).items),
    decreases descriptors.len(),
{
    if descriptors.len() > 0 {
        claim_all_keeps_unique(claims, provider, provider_name, descriptors.drop_last());
        claim_keeps_first_descriptors(
            claim_all(claims, provider, provider_name, descriptors.drop_last()),
            provider,
            provider_name,
            descriptors.last(),
        );
    }
}

proof fn contributed_unique(contributions: Seq<HostRegistryContribution>)
    ensures
        ids_unique(contributed(contributions).datasets),
        ids_unique(contributed(contributions).views),
        ids_unique(contributed(contributions).actions),
    decreases contributions.len(),
{
    if contributions.len() > 0 {
        let model = contributed(contributions.drop_last());
        let c = contributions.last();
        contributed_unique(contributions.drop_last());
        let datasets = Claims { items: model.datasets, warnings: model.warnings };
        claim_all_keeps_unique(datasets, c.provider, c.provider_name, c.registry.datasets@);
        let after_datasets = claim_all(
            datasets,
            c.provider,
            c.provider_name,
            c.registry.datasets@,
        );
        let views = Claims { items: model.views, warnings: after_datasets.warnings };
        claim_all_keeps_unique(views, c.provider, c.provider_name, c.registry.views@);
        let after_views = claim_all(views, c.provider, c.provider_name, c.registry.views@);
        let actions = Claims { items: model.actions, warnings: after_views.warnings };
        claim_all_keeps_unique(actions, c.provider, c.provider_name, c.registry.actions@);
    }
}

/// A resolved view belongs to a resolved dataset that it can show.
pub open spec fn view_fits(
    view: ResolvedHostView,
    datasets: Seq<ResolvedHostDataset>,
) -> bool {
    match find_id(datasets, view.descriptor.dataset_id@) {
        Some(i) => kind_fits(view.descriptor.kind, datasets[i].descriptor.kind),
        None => false,
    }
}

proof fn kept_views_fit(
    views: Seq<ResolvedHostView>,
    datasets: Seq<ResolvedHostDataset>,
    warnings: Seq<Seq<char>>,
)
    requires
        ids_unique(views),
    ensures
        ({
            let kept = kept_views(views, datasets, warnings);
            &&& ids_unique(kept.items)
            &&& forall|i: int|
                0 <= i < kept.items.len() ==> view_fits(#[trigger] kept.items[i], datasets)
            &&& forall|i: int|
                0 <= i < kept.items.len() ==> views.contains(#[trigger] kept.items[i])
            &&& kept.items.len() + kept.warnings.len() == views.len() + warnings.len()
        }),
    decreases views.len(),
{
    if views.len() > 0 {
        let rest = views.drop_last();
        assert(ids_unique(rest)) by {
            assert(forall|i: int| 0 <= i < rest.len() ==> rest[i] == views[i]);
        }
        kept_views_fit(rest, datasets, warnings);
        let before = kept_views(rest, datasets, warnings);
        let kept = kept_views(views, datasets, warnings);
        assert forall|i: int| 0 <= i < kept.items.len() implies views.contains(
            #[trigger] kept.items[i],
        ) by {
            if i < before.items.len() {
                assert(rest.contains(before.items[i]));
                let k = choose|k: int| 0 <= k < rest.len() && rest[k] == before.items[i];
                assert(views[k] == kept.items[i]);
            } else {
                assert(views[views.len() - 1] == kept.items[i]);
            }
        }
        assert(ids_unique(kept.items)) by {
            if kept.items.len() > before.items.len() {
                assert forall|i: int| 0 <= i < before.items.len() implies (
                #[trigger] before.items[i]).descriptor.id_view()
                    != views.last().descriptor.id_view() by {
                    assert(rest.contains(before.items[i]));
                    let k = choose|k: int| 0 <= k < rest.len() && rest[k] == before.items[i];
                    assert(views[k] == before.items[i]);
                }
                assert(kept.items =~= before.items.push(views.last()));
                assert(!is_blank(views[views.len() - 1].descriptor.id_view()));
            }
        }
    }
}

proof fn kept_actions_fit(
    actions: Seq<ResolvedHostAction>,
    datasets: Seq<ResolvedHostDataset>,
    warnings: Seq<Seq<char>>,
)
    requires
        ids_unique(actions),
    ensures
        ({
            let kept = kept_actions(actions, datasets, warnings);
            &&& ids_unique(kept.items)
            &&& forall|i: int|
                0 <= i < kept.items.len() ==> find_id(
                    datasets,
                    (#[trigger] kept.items[i]).descriptor.scope.dataset(),
                ) is Some
            &&& forall|i: int|
                0 <= i < kept.items.len() ==> actions.contains(#[trigger] kept.items[i])
            &&& kept.items.len() + kept.warnings.len() == actions.len() + warnings.len()
        }),
    decreases actions.len(),
{
    if actions.len() > 0 {
        let rest = actions.drop_last();
        assert(ids_unique(rest)) by {
            assert(forall|i: int| 0 <= i < rest.len() ==> rest[i] == actions[i]);
        }
        kept_actions_fit(rest, datasets, warnings);
        let before = kept_actions(rest, datasets, warnings);
        let kept = kept_actions(actions, datasets, warnings);
        assert forall|i: int| 0 <= i < kept.items.len() implies actions.contains(
            #[trigger] kept.items[i],
        ) by {
            if i < before.items.len() {
                assert(rest.contains(before.items[i]));
                let k = choose|k: int| 0 <= k < rest.len() && rest[k] == before.items[i];
                assert(actions[k] == kept.items[i]);
            } else {
                assert(actions[actions.len() - 1] == kept.items[i]);
            }
        }
        assert(ids_unique(kept.items)) by {
            if kept.items.len() > before.items.len() {
                assert forall|i: int| 0 <= i < before.items.len() implies (
                #[trigger] before.items[i]).descriptor.id_view()
                    != actions.last().descriptor.id_view() by {
                    assert(rest.contains(before.items[i]));
                    let k = choose|k: int| 0 <= k < rest.len() && rest[k] == before.items[i];
                    assert(actions[k] == before.items[i]);
                }
                assert(kept.items =~= before.items.push(actions.last()));
                assert(!is_blank(actions[actions.len() - 1].descriptor.id_view()));
            }
        }
    }
}

/// However the plugins publish: every id of the registry is registered once
/// and is not blank, every view belongs to a dataset of the registry that it
/// can show, and every action to a dataset of the registry.
pub proof fn resolution_is_consistent(contributions: Seq<HostRegistryContribution>)
    ensures
        ({
            let model = resolution(contributions);
            &&& ids_unique(model.datasets)
            &&& ids_unique(model.views)
            &&& ids_unique(model.actions)
            &&& forall|i: int|
                0 <= i < model.views.len() ==> view_fits(#[trigger] model.views[i], model.datasets)
            &&& forall|i: int|
                0 <= i < model.actions.len() ==> find_id(
                    model.datasets,
                    (#[trigger] model.actions[i]).descriptor.scope.dataset(),
                ) is Some
        }),
{
    let all = contributed(contributions);
    contributed_unique(contributions);
    kept_views_fit(all.views, all.datasets, all.warnings);
    let views = kept_views(all.views, all.datasets, all.warnings);
    kept_actions_fit(all.actions, all.datasets, views.warnings);
}

/// No view and no action is dropped in silence: each one that was registered
/// and does not stand in the registry adds a warning.
pub proof fn dropped_items_are_warned_about(contributions: Seq<HostRegistryContribution>)
    ensures
        ({
            let all = contributed(contributions);
            let model = resolution(contributions);
            model.warnings.len() - all.warnings.len() == (all.views.len() - model.views.len()) + (
            all.actions.len() - model.actions.len())
        }),
{
    let all = contributed(contributions);
    contributed_unique(contributions);
    kept_views_fit(all.views, all.datasets, all.warnings);
    let views = kept_views(all.views, all.datasets, all.warnings);
    kept_actions_fit(all.actions, all.datasets, views.warnings);
}

/// Each kind of view shows one kind of dataset: the five table views a table,
/// the image window an image, the line series window a series.
pub proof fn views_show_one_kind_of_dataset(view: HostViewKind, dataset: HostDatasetKind)
    ensures
        view is CompactTable ==> (kind_fits(view, dataset) <==> dataset is TableV1),
        view is TableWindow ==> (kind_fits(view, dataset) <==> dataset is TableV1),
        view is Density2dFromTable ==> (kind_fits(view, dataset) <==> dataset is TableV1),
        view is Scatter2dFromTable ==> (kind_fits(view, dataset) <==> dataset is TableV1),
        view is Scatter3dFromTable ==> (kind_fits(view, dataset) <==> dataset is TableV1),
        view is ImageWindow ==> (kind_fits(view, dataset) <==> dataset is Image2dV1),
        view is LineSeriesWindow ==> (kind_fits(view, dataset) <==> dataset is Series1dV1),
{
}

/// What becomes of a claim: a descriptor with a new id is registered last; one
/// that equals the descriptor with its id hands that one over to its plugin;
/// any other changes nothing that is registered and adds one warning.
pub proof fn claims_are_granted_once<D: Registered>(
    claims: Claims<D>,
    provider: HostViewProviderKey,
    provider_name: String,
    descriptor: D,
    i: int,
)
    ensures
        ({
            let after = claim(claims, provider, provider_name, descriptor);
            let id = descriptor.id_view();
            &&& is_blank(id) ==> after.items == claims.items && after.warnings
                == claims.warnings.push(
                "Ignoring "@ + D::noun() + " with an empty id from "@ + provider_name@ + "."@,
            )
            &&& !is_blank(id) && (forall|j: int|
                0 <= j < claims.items.len() ==> (#[trigger] claims.items[j]).descriptor.id_view()
                    != id) ==> after.warnings == claims.warnings && after.items
                == claims.items.push(Resolved { descriptor, provider, provider_name })
            &&& !is_blank(id) && 0 <= i < claims.items.len()
                && claims.items[i].descriptor.id_view() == id && (forall|j: int|
                0 <= j < i ==> (#[trigger] claims.items[j]).descriptor.id_view() != id) ==> if
            claims.items[i].descriptor.alike(&descriptor) {
                &&& after.warnings == claims.warnings
                &&& after.items.len() == claims.items.len()
                &&& after.items[i].provider == provider
                &&& after.items[i].provider_name == provider_name
                &&& after.items[i].descriptor == claims.items[i].descriptor
                &&& forall|j: int|
                    0 <= j < claims.items.len() && j != i ==> #[trigger] after.items[j]
                        == claims.items[j]
            } else {
                &&& after.items == claims.items
                &&& after.warnings == claims.warnings.push(
                    "Ignoring conflicting "@ + D::noun() + " id "@ + id + " from "@
                        + provider_name@ + "; it does not match the earlier descriptor from "@
                        + claims.items[i].provider_name@ + "."@,
                )
            }
        }),
{
    find_id_is_first(claims.items, descriptor.id_view());
}

/// A claim on another id leaves what is registered under an id, and registers
/// nothing under it.
proof fn claim_on_another_id<D: Registered>(
    claims: Claims<D>,
    provider: HostViewProviderKey,
    provider_name: String,
    descriptor: D,
    id: Seq<char>,
)
    requires
        descriptor.id_view() != id,
    ensures
        ({
            let after = claim(claims, provider, provider_name, descriptor);
            &&& forall|i: int|
                0 <= i < claims.items.len() && (#[trigger] claims.items[i]).descriptor.id_view()
                    == id ==> after.items.contains(claims.items[i])
            &&& find_id(claims.items, id) is None ==> find_id(after.items, id) is None
        }),
{
    let after = claim(claims, provider, provider_name, descriptor);
    find_id_is_first(claims.items, descriptor.id_view());
    find_id_is_first(claims.items, id);
    find_id_is_first(after.items, id);
    assert forall|i: int| 0 <= i < claims.items.len() && (
    #[trigger] claims.items[i]).descriptor.id_view() == id implies after.items.contains(
        claims.items[i],
    ) by {
        assert(after.items[i] == claims.items[i]);
    }
    if find_id(claims.items, id) is None && find_id(after.items, id) is Some {
        let k = find_id(after.items, id)->0;
        if k < claims.items.len() {
            assert(claims.items[k].descriptor == after.items[k].descriptor);
        }
    }
}

proof fn claims_on_other_ids<D: Registered>(
    claims: Claims<D>,
    provider: HostViewProviderKey,
    provider_name: String,
    descriptors: Seq<D>,
    id: Seq<char>,
    item: Resolved<D>,
)
    requires
        forall|m: int| 0 <= m < descriptors.len() ==> (#[trigger] descriptors[m]).id_view() != id,
        item.descriptor.id_view() == id,
    ensures
        ({
            let after = claim_all(claims, provider, provider_name, descriptors);
            &&& claims.items.contains(item) ==> after.items.contains(item)
            &&& find_id(claims.items, id) is None ==> find_id(after.items, id) is None
        }),
    decreases descriptors.len(),
{
    if descriptors.len() > 0 {
        let rest = descriptors.drop_last();
        assert(forall|m: int| 0 <= m < rest.len() ==> #[trigger] rest[m] == descriptors[m]);
        claims_on_other_ids(claims, provider, provider_name, rest, id, item);
        let mid = claim_all(claims, provider, provider_name, rest);
        assert(descriptors.last() == descriptors[descriptors.len() - 1]);
        claim_on_another_id(mid, provider, provider_name, descriptors.last(), id);
    }
}

/// The one descriptor of its id is registered as its plugin published it.
proof fn own_id_is_registered<D: Registered>(
    claims: Claims<D>,
    provider: HostViewProviderKey,
    provider_name: String,
    descriptors: Seq<D>,
    k: int,
)
    requires
        0 <= k < descriptors.len(),
        !is_blank(descriptors[k].id_view()),
        find_id(claims.items, descriptors[k].id_view()) is None,
        forall|m: int|
            0 <= m < descriptors.len() && m != k ==> (#[trigger] descriptors[m]).id_view()
                != descriptors[k].id_view(),
    ensures
        claim_all(claims, provider, provider_name, descriptors).items.contains(
            Resolved { descriptor: descriptors[k], provider, provider_name },
        ),
    decreases descriptors.len(),
{
    let rest = descriptors.drop_last();
    let id = descriptors[k].id_view();
    let item = Resolved { descriptor: descriptors[k], provider, provider_name };
    let mid = claim_all(claims, provider, provider_name, rest);
    assert(forall|m: int| 0 <= m < rest.len() ==> #[trigger] rest[m] == descriptors[m]);
    assert(descriptors.last() == descriptors[descriptors.len() - 1]);
    if k < rest.len() {
        own_id_is_registered(claims, provider, provider_name, rest, k);
        claim_on_another_id(mid, provider, provider_name, descriptors.last(), id);
        let i = choose|i: int| 0 <= i < mid.items.len() && mid.items[i] == item;
        assert(mid.items[i].descriptor.id_view() == id);
    } else {
        claims_on_other_ids(claims, provider, provider_name, rest, id, item);
        let after = claim(mid, provider, provider_name, descriptors.last());
        assert(after.items[mid.items.len() as int] == item);
    }
}

/// Every registered descriptor was published.
proof fn claims_are_published<D: Registered>(
    claims: Claims<D>,
    provider: HostViewProviderKey,
    provider_name: String,
    descriptors: Seq<D>,
    published: spec_fn(D) -> bool,
)
    requires
        forall|i: int| 0 <= i < claims.items.len() ==> published((#[trigger] claims.items[i]).descriptor),
        forall|m: int| 0 <= m < descriptors.len() ==> published(#[trigger] descriptors[m]),
    ensures
        ({
            let after = claim_all(claims, provider, provider_name, descriptors);
            forall|i: int|
                0 <= i < after.items.len() ==> published((#[trigger] after.items[i]).descriptor)
        }),
    decreases descriptors.len(),
{
    if descriptors.len() > 0 {
        let rest = descriptors.drop_last();
        assert(forall|m: int| 0 <= m < rest.len() ==> #[trigger] rest[m] == descriptors[m]);
        claims_are_published(claims, provider, provider_name, rest, published);
        let mid = claim_all(claims, provider, provider_name, rest);
        let after = claim_all(claims, provider, provider_name, descriptors);
        assert(descriptors.last() == descriptors[descriptors.len() - 1]);
        find_id_is_first(mid.items, descriptors.last().id_view());
        assert forall|i: int| 0 <= i < after.items.len() implies published(
            (#[trigger] after.items[i]).descriptor,
        ) by {
            if i < mid.items.len() {
                assert(after.items[i].descriptor == mid.items[i].descriptor);
            }
        }
    }
}

/// Descriptors with ids of their own are registered without a warning.
proof fn own_ids_need_no_warning<D: Registered>(
    claims: Claims<D>,
    provider: HostViewProviderKey,
    provider_name: String,
    descriptors: Seq<D>,
)
    requires
        forall|m: int|
            0 <= m < descriptors.len() ==> !is_blank((#[trigger] descriptors[m]).id_view())
                && find_id(claims.items, descriptors[m].id_view()) is None,
        forall|a: int, b: int|
            0 <= a < b < descriptors.len() ==> (#[trigger] descriptors[a]).id_view() != (
            #[trigger] descriptors[b]).id_view(),
    ensures
        claim_all(claims, provider, provider_name, descriptors).warnings == claims.warnings,
    decreases descriptors.len(),
{
    if descriptors.len() > 0 {
        let rest = descriptors.drop_last();
        assert(forall|m: int| 0 <= m < rest.len() ==> #[trigger] rest[m] == descriptors[m]);
        own_ids_need_no_warning(claims, provider, provider_name, rest);
        let last = descriptors.last();
        assert(last == descriptors[descriptors.len() - 1]);
        claims_on_other_ids(
            claims,
            provider,
            provider_name,
            rest,
            last.id_view(),
            Resolved { descriptor: last, provider, provider_name },
        );
    }
}

/// The state of the registration after the first `n` plugins.
proof fn contributed_step(contributions: Seq<HostRegistryContribution>, n: int)
    requires
        0 <= n < contributions.len(),
    ensures
        contributed(contributions.take(n + 1)) == contribute(
            contributed(contributions.take(n)),
            contributions[n],
        ),
{
    assert(contributions.take(n + 1).drop_last() =~= contributions.take(n));
}

/// Whether a dataset has an id of its own: it is not blank, and no other dataset that a
/// plugin publishes has it.
pub open spec fn dataset_has_its_own_id(
    contributions: Seq<HostRegistryContribution>,
    p: int,
    k: int,
) -> bool {
    &&& 0 <= p < contributions.len()
    &&& 0 <= k < contributions[p].registry.datasets@.len()
    &&& !is_blank(contributions[p].registry.datasets@[k].id@)
    &&& forall|q: int, m: int|
        0 <= q < contributions.len() && 0 <= m < contributions[q].registry.datasets@.len() && (q != p
            || m != k) ==> (#[trigger] contributions[q].registry.datasets@[m]).id@
            != contributions[p].registry.datasets@[k].id@
}

proof fn dataset_of_its_own_id_is_registered(
    contributions: Seq<HostRegistryContribution>,
    p: int,
    k: int,
    n: int,
)
    requires
        dataset_has_its_own_id(contributions, p, k),
        0 <= n <= contributions.len(),
    ensures
        ({
            let c = contributions[p];
            let items = contributed(contributions.take(n)).datasets;
            &&& n <= p ==> find_id(items, c.registry.datasets@[k].id@) is None
            &&& n > p ==> items.contains(
                Resolved {
                    descriptor: c.registry.datasets@[k],
                    provider: c.provider,
                    provider_name: c.provider_name,
                },
            )
        }),
    decreases n,
{
    let c = contributions[p];
    let id = c.registry.datasets@[k].id@;
    let item = Resolved {
        descriptor: c.registry.datasets@[k],
        provider: c.provider,
        provider_name: c.provider_name,
    };
    if n == 0 {
        assert(contributions.take(0) =~= Seq::empty());
    } else {
        dataset_of_its_own_id_is_registered(contributions, p, k, n - 1);
        contributed_step(contributions, n - 1);
        let model = contributed(contributions.take(n - 1));
        let next = contributions[n - 1];
        let claims = Claims { items: model.datasets, warnings: model.warnings };
        if n - 1 == p {
            own_id_is_registered(
                claims,
                next.provider,
                next.provider_name,
                next.registry.datasets@,
                k,
            );
        } else {
            assert forall|m: int| 0 <= m < next.registry.datasets@.len() implies (
            #[trigger] next.registry.datasets@[m]).id_view() != id by {
                assert(contributions[n - 1].registry.datasets@[m].id@ != id);
            }
            claims_on_other_ids(
                claims,
                next.provider,
                next.provider_name,
                next.registry.datasets@,
                id,
                item,
            );
        }
    }
}

/// Whether a view has an id of its own: it is not blank, and no other view that a
/// plugin publishes has it.
pub open spec fn view_has_its_own_id(
    contributions: Seq<HostRegistryContribution>,
    p: int,
    k: int,
) -> bool {
    &&& 0 <= p < contributions.len()
    &&& 0 <= k < contributions[p].registry.views@.len()
    &&& !is_blank(contributions[p].registry.views@[k].id@)
    &&& forall|q: int, m: int|
        0 <= q < contributions.len() && 0 <= m < contributions[q].registry.views@.len() && (q != p
            || m != k) ==> (#[trigger] contributions[q].registry.views@[m]).id@
            != contributions[p].registry.views@[k].id@
}

proof fn view_of_its_own_id_is_registered(
    contributions: Seq<HostRegistryContribution>,
    p: int,
    k: int,
    n: int,
)
    requires
        view_has_its_own_id(contributions, p, k),
        0 <= n <= contributions.len(),
    ensures
        ({
            let c = contributions[p];
            let items = contributed(contributions.take(n)).views;
            &&& n <= p ==> find_id(items, c.registry.views@[k].id@) is None
            &&& n > p ==> items.contains(
                Resolved {
                    descriptor: c.registry.views@[k],
                    provider: c.provider,
                    provider_name: c.provider_name,
                },
            )
        }),
    decreases n,
{
    let c = contributions[p];
    let id = c.registry.views@[k].id@;
    let item = Resolved {
        descriptor: c.registry.views@[k],
        provider: c.provider,
        provider_name: c.provider_name,
    };
    if n == 0 {
        assert(contributions.take(0) =~= Seq::empty());
    } else {
        view_of_its_own_id_is_registered(contributions, p, k, n - 1);
        contributed_step(contributions, n - 1);
        let model = contributed(contributions.take(n - 1));
        let next = contributions[n - 1];
        let first = claim_all(
            Claims { items: model.datasets, warnings: model.warnings },
            next.provider,
            next.provider_name,
            next.registry.datasets@,
        );
        let claims = Claims { items: model.views, warnings: first.warnings };
        if n - 1 == p {
            own_id_is_registered(
                claims,
                next.provider,
                next.provider_name,
                next.registry.views@,
                k,
            );
        } else {
            assert forall|m: int| 0 <= m < next.registry.views@.len() implies (
            #[trigger] next.registry.views@[m]).id_view() != id by {
                assert(contributions[n - 1].registry.views@[m].id@ != id);
            }
            claims_on_other_ids(
                claims,
                next.provider,
                next.provider_name,
                next.registry.views@,
                id,
                item,
            );
        }
    }
}

/// Whether a action has an id of its own: it is not blank, and no other action that a
/// plugin publishes has it.
pub open spec fn action_has_its_own_id(
    contributions: Seq<HostRegistryContribution>,
    p: int,
    k: int,
) -> bool {
    &&& 0 <= p < contributions.len()
    &&& 0 <= k < contributions[p].registry.actions@.len()
    &&& !is_blank(contributions[p].registry.actions@[k].id@)
    &&& forall|q: int, m: int|
        0 <= q < contributions.len() && 0 <= m < contributions[q].registry.actions@.len() && (q != p
            || m != k) ==> (#[trigger] contributions[q].registry.actions@[m]).id@
            != contributions[p].registry.actions@[k].id@
}

proof fn action_of_its_own_id_is_registered(
    contributions: Seq<HostRegistryContribution>,
    p: int,
    k: int,
    n: int,
)
    requires
        action_has_its_own_id(contributions, p, k),
        0 <= n <= contributions.len(),
    ensures
        ({
            let c = contributions[p];
            let items = contributed(contributions.take(n)).actions;
            &&& n <= p ==> find_id(items, c.registry.actions@[k].id@) is None
            &&& n > p ==> items.contains(
                Resolved {
                    descriptor: c.registry.actions@[k],
                    provider: c.provider,
                    provider_name: c.provider_name,
                },
            )
        }),
    decreases n,
{
    let c = contributions[p];
    let id = c.registry.actions@[k].id@;
    let item = Resolved {
        descriptor: c.registry.actions@[k],
        provider: c.provider,
        provider_name: c.provider_name,
    };
    if n == 0 {
        assert(contributions.take(0) =~= Seq::empty());
    } else {
        action_of_its_own_id_is_registered(contributions, p, k, n - 1);
        contributed_step(contributions, n - 1);
        let model = contributed(contributions.take(n - 1));
        let next = contributions[n - 1];
        let first = claim_all(
            Claims { items: model.datasets, warnings: model.warnings },
            next.provider,
            next.provider_name,
            next.registry.datasets@,
        );
        let second = claim_all(
            Claims { items: model.views, warnings: first.warnings },
            next.provider,
            next.provider_name,
            next.registry.views@,
        );
        let claims = Claims { items: model.actions, warnings: second.warnings };
        if n - 1 == p {
            own_id_is_registered(
                claims,
                next.provider,
                next.provider_name,
                next.registry.actions@,
                k,
            );
        } else {
            assert forall|m: int| 0 <= m < next.registry.actions@.len() implies (
            #[trigger] next.registry.actions@[m]).id_view() != id by {
                assert(contributions[n - 1].registry.actions@[m].id@ != id);
            }
            claims_on_other_ids(
                claims,
                next.provider,
                next.provider_name,
                next.registry.actions@,
                id,
                item,
            );
        }
    }
}

proof fn kept_views_hold(
    views: Seq<ResolvedHostView>,
    datasets: Seq<ResolvedHostDataset>,
    warnings: Seq<Seq<char>>,
    view: ResolvedHostView,
)
    requires
        views.contains(view),
    ensures
        ({
            let kept = kept_views(views, datasets, warnings);
            match find_id(datasets, view.descriptor.dataset_id@) {
                Some(i) => if kind_fits(view.descriptor.kind, datasets[i].descriptor.kind) {
                    kept.items.contains(view)
                } else {
                    kept.warnings.contains(misfit_warning(view, datasets[i]))
                },
                None => kept.warnings.contains(
                    unresolved_warning::<HostViewDescriptor>(
                        view.descriptor.id@,
                        view.provider_name@,
                        view.descriptor.dataset_id@,
                    ),
                ),
            }
        }),
    decreases views.len(),
{
    let rest = views.drop_last();
    let before = kept_views(rest, datasets, warnings);
    let kept = kept_views(views, datasets, warnings);
    if view == views.last() {
        if kept.items.len() > before.items.len() {
            assert(kept.items[before.items.len() as int] == view);
        } else {
            assert(kept.warnings[before.warnings.len() as int] == kept.warnings.last());
        }
    } else {
        let k = choose|k: int| 0 <= k < views.len() && views[k] == view;
        assert(rest[k] == view);
        kept_views_hold(rest, datasets, warnings, view);
        assert forall|v: ResolvedHostView| before.items.contains(v) implies kept.items.contains(
            v,
        ) by {
            let i = choose|i: int| 0 <= i < before.items.len() && before.items[i] == v;
            assert(kept.items[i] == v);
        }
        assert forall|w: Seq<char>| before.warnings.contains(w) implies kept.warnings.contains(
            w,
        ) by {
            let i = choose|i: int| 0 <= i < before.warnings.len() && before.warnings[i] == w;
            assert(kept.warnings[i] == w);
        }
    }
}

proof fn kept_actions_hold(
    actions: Seq<ResolvedHostAction>,
    datasets: Seq<ResolvedHostDataset>,
    warnings: Seq<Seq<char>>,
    action: ResolvedHostAction,
)
    requires
        actions.contains(action),
    ensures
        ({
            let kept = kept_actions(actions, datasets, warnings);
            if find_id(datasets, action.descriptor.scope.dataset()) is Some {
                kept.items.contains(action)
            } else {
                kept.warnings.contains(
                    unresolved_warning::<HostActionDescriptor>(
                        action.descriptor.id@,
                        action.provider_name@,
                        action.descriptor.scope.dataset(),
                    ),
                )
            }
        }),
        forall|w: Seq<char>| #[trigger]
            warnings.contains(w) ==> kept_actions(actions, datasets, warnings).warnings.contains(w),
    decreases actions.len(),
{
    let rest = actions.drop_last();
    let before = kept_actions(rest, datasets, warnings);
    let kept = kept_actions(actions, datasets, warnings);
    actions_keep_warnings(actions, datasets, warnings);
    if action == actions.last() {
        if kept.items.len() > before.items.len() {
            assert(kept.items[before.items.len() as int] == action);
        } else {
            assert(kept.warnings[before.warnings.len() as int] == kept.warnings.last());
        }
    } else {
        let k = choose|k: int| 0 <= k < actions.len() && actions[k] == action;
        assert(rest[k] == action);
        kept_actions_hold(rest, datasets, warnings, action);
        assert forall|v: ResolvedHostAction| before.items.contains(v) implies kept.items.contains(
            v,
        ) by {
            let i = choose|i: int| 0 <= i < before.items.len() && before.items[i] == v;
            assert(kept.items[i] == v);
        }
        assert forall|w: Seq<char>| before.warnings.contains(w) implies kept.warnings.contains(
            w,
        ) by {
            let i = choose|i: int| 0 <= i < before.warnings.len() && before.warnings[i] == w;
            assert(kept.warnings[i] == w);
        }
    }
}

proof fn actions_keep_warnings(
    actions: Seq<ResolvedHostAction>,
    datasets: Seq<ResolvedHostDataset>,
    warnings: Seq<Seq<char>>,
)
    ensures
        forall|w: Seq<char>| #[trigger]
            warnings.contains(w) ==> kept_actions(actions, datasets, warnings).warnings.contains(w),
    decreases actions.len(),
{
    if actions.len() > 0 {
        let rest = actions.drop_last();
        actions_keep_warnings(rest, datasets, warnings);
        let before = kept_actions(rest, datasets, warnings);
        let kept = kept_actions(actions, datasets, warnings);
        assert forall|w: Seq<char>| #[trigger] warnings.contains(w) implies kept.warnings.contains(
            w,
        ) by {
            assert(before.warnings.contains(w));
            let i = choose|i: int| 0 <= i < before.warnings.len() && before.warnings[i] == w;
            assert(kept.warnings[i] == w);
        }
    }
}

/// A view with an id of its own that names a published dataset stands in the
/// registry, as its plugin published it, if and only if the dataset is of the
/// kind that such a view shows. Otherwise there is a warning that says so.
pub proof fn views_of_published_datasets_are_kept(
    contributions: Seq<HostRegistryContribution>,
    p: int,
    k: int,
    q: int,
    m: int,
)
    requires
        view_has_its_own_id(contributions, p, k),
        dataset_has_its_own_id(contributions, q, m),
        contributions[p].registry.views@[k].dataset_id@
            == contributions[q].registry.datasets@[m].id@,
    ensures
        ({
            let view = contributions[p].registry.views@[k];
            let dataset = contributions[q].registry.datasets@[m];
            let item = Resolved {
                descriptor: view,
                provider: contributions[p].provider,
                provider_name: contributions[p].provider_name,
            };
            let model = resolution(contributions);
            let fits = match view.kind {
                HostViewKind::CompactTable => dataset.kind is TableV1,
                HostViewKind::TableWindow => dataset.kind is TableV1,
                HostViewKind::Density2dFromTable { .. } => dataset.kind is TableV1,
                HostViewKind::Scatter2dFromTable { .. } => dataset.kind is TableV1,
                HostViewKind::Scatter3dFromTable { .. } => dataset.kind is TableV1,
                HostViewKind::ImageWindow => dataset.kind is Image2dV1,
                HostViewKind::LineSeriesWindow => dataset.kind is Series1dV1,
            };
            &&& fits ==> model.views.contains(item)
            &&& !fits ==> find_id(model.views, view.id@) is None && model.warnings.contains(
                "Ignoring view id "@ + view.id@ + " from "@ + item.provider_name@ + " because "@
                    + view_kind_name(view.kind) + " views do not match dataset "@
                    + view.dataset_id@ + " ("@ + dataset.kind_text@ + ")."@,
            )
            &&& model.datasets.contains(
                Resolved {
                    descriptor: dataset,
                    provider: contributions[q].provider,
                    provider_name: contributions[q].provider_name,
                },
            )
        }),
{
    let n = contributions.len() as int;
    assert(contributions.take(n) =~= contributions);
    let view = contributions[p].registry.views@[k];
    let dataset = contributions[q].registry.datasets@[m];
    view_of_its_own_id_is_registered(contributions, p, k, n);
    dataset_of_its_own_id_is_registered(contributions, q, m, n);
    let item = Resolved {
        descriptor: view,
        provider: contributions[p].provider,
        provider_name: contributions[p].provider_name,
    };
    let shown = Resolved {
        descriptor: dataset,
        provider: contributions[q].provider,
        provider_name: contributions[q].provider_name,
    };
    let all = contributed(contributions);
    let model = resolution(contributions);
    contributed_unique(contributions);
    find_id_is_first(all.datasets, dataset.id@);
    let at = choose|i: int| 0 <= i < all.datasets.len() && all.datasets[i] == shown;
    let found = find_id(all.datasets, dataset.id@);
    assert(all.datasets[at].descriptor.id_view() == dataset.id@);
    assert(found == Some(at)) by {
        if found->0 < at {
            assert(all.datasets[found->0].descriptor.id_view()
                != all.datasets[at].descriptor.id_view());
        }
    }
    kept_views_hold(all.views, all.datasets, all.warnings, item);
    let views = kept_views(all.views, all.datasets, all.warnings);
    actions_keep_warnings(all.actions, all.datasets, views.warnings);
    views_show_one_kind_of_dataset(view.kind, dataset.kind);
    kept_views_fit(all.views, all.datasets, all.warnings);
    if !kind_fits(view.kind, dataset.kind) {
        assert(views.warnings.contains(misfit_warning(item, shown)));
        find_id_is_first(model.views, view.id@);
        if let Some(i) = find_id(model.views, view.id@) {
            assert(view_fits(model.views[i], all.datasets));
            assert(all.views.contains(model.views[i]));
            let a = choose|a: int| 0 <= a < all.views.len() && all.views[a] == model.views[i];
            let b = choose|b: int| 0 <= b < all.views.len() && all.views[b] == item;
            assert(all.views[a].descriptor.id_view() == all.views[b].descriptor.id_view());
            assert(a == b);
        }
    }
}

/// Every dataset, view and action of the registry was published by a plugin,
/// and no view or action refers to a dataset that no plugin published.
pub proof fn resolved_items_were_published(contributions: Seq<HostRegistryContribution>)
    ensures
        ({
            let model = resolution(contributions);
            &&& forall|i: int|
                0 <= i < model.datasets.len() ==> publishes_dataset(
                    contributions,
                    (#[trigger] model.datasets[i]).descriptor,
                )
            &&& forall|i: int|
                0 <= i < model.views.len() ==> publishes_view(
                    contributions,
                    (#[trigger] model.views[i]).descriptor,
                )
            &&& forall|i: int|
                0 <= i < model.actions.len() ==> publishes_action(
                    contributions,
                    (#[trigger] model.actions[i]).descriptor,
                )
        }),
{
    let all = contributed(contributions);
    let model = resolution(contributions);
    registered_items_were_published(contributions, contributions.len() as int);
    assert(contributions.take(contributions.len() as int) =~= contributions);
    contributed_unique(contributions);
    kept_views_fit(all.views, all.datasets, all.warnings);
    let views = kept_views(all.views, all.datasets, all.warnings);
    kept_actions_fit(all.actions, all.datasets, views.warnings);
    assert forall|i: int| 0 <= i < model.views.len() implies publishes_view(
        contributions,
        (#[trigger] model.views[i]).descriptor,
    ) by {
        assert(all.views.contains(model.views[i]));
    }
    assert forall|i: int| 0 <= i < model.actions.len() implies publishes_action(
        contributions,
        (#[trigger] model.actions[i]).descriptor,
    ) by {
        assert(all.actions.contains(model.actions[i]));
    }
}

/// Whether a plugin publishes the dataset.
pub open spec fn publishes_dataset(
    contributions: Seq<HostRegistryContribution>,
    descriptor: HostDatasetDescriptor,
) -> bool {
    exists|q: int, m: int|
        0 <= q < contributions.len() && 0 <= m < contributions[q].registry.datasets@.len()
            && #[trigger] contributions[q].registry.datasets@[m] == descriptor
}

/// Whether a plugin publishes the view.
pub open spec fn publishes_view(
    contributions: Seq<HostRegistryContribution>,
    descriptor: HostViewDescriptor,
) -> bool {
    exists|q: int, m: int|
        0 <= q < contributions.len() && 0 <= m < contributions[q].registry.views@.len()
            && #[trigger] contributions[q].registry.views@[m] == descriptor
}

/// Whether a plugin publishes the action.
pub open spec fn publishes_action(
    contributions: Seq<HostRegistryContribution>,
    descriptor: HostActionDescriptor,
) -> bool {
    exists|q: int, m: int|
        0 <= q < contributions.len() && 0 <= m < contributions[q].registry.actions@.len()
            && #[trigger] contributions[q].registry.actions@[m] == descriptor
}

proof fn registered_items_were_published(contributions: Seq<HostRegistryContribution>, n: int)
    requires
        0 <= n <= contributions.len(),
    ensures
        ({
            let all = contributed(contributions.take(n));
            &&& forall|i: int|
                0 <= i < all.datasets.len() ==> publishes_dataset(
                    contributions,
                    (#[trigger] all.datasets[i]).descriptor,
                )
            &&& forall|i: int|
                0 <= i < all.views.len() ==> publishes_view(
                    contributions,
                    (#[trigger] all.views[i]).descriptor,
                )
            &&& forall|i: int|
                0 <= i < all.actions.len() ==> publishes_action(
                    contributions,
                    (#[trigger] all.actions[i]).descriptor,
                )
        }),
    decreases n,
{
    if n == 0 {
        assert(contributions.take(0) =~= Seq::empty());
    } else {
        registered_items_were_published(contributions, n - 1);
        contributed_step(contributions, n - 1);
        let model = contributed(contributions.take(n - 1));
        let next = contributions[n - 1];
        let datasets = Claims { items: model.datasets, warnings: model.warnings };
        claims_are_published(
            datasets,
            next.provider,
            next.provider_name,
            next.registry.datasets@,
            |d: HostDatasetDescriptor| publishes_dataset(contributions, d),
        );
        let first = claim_all(
            datasets,
            next.provider,
            next.provider_name,
            next.registry.datasets@,
        );
        let views = Claims { items: model.views, warnings: first.warnings };
        claims_are_published(
            views,
            next.provider,
            next.provider_name,
            next.registry.views@,
            |d: HostViewDescriptor| publishes_view(contributions, d),
        );
        let second = claim_all(views, next.provider, next.provider_name, next.registry.views@);
        claims_are_published(
            Claims { items: model.actions, warnings: second.warnings },
            next.provider,
            next.provider_name,
            next.registry.actions@,
            |d: HostActionDescriptor| publishes_action(contributions, d),
        );
    }
}

/// The views of a place are those of the registry that ask for it and, where a
/// plugin is named, belong to that plugin.
pub proof fn placed_views_ask_for_their_place(
    views: Seq<ResolvedHostView>,
    provider: Option<HostViewProviderKey>,
    placement: HostViewPlacement,
    view: ResolvedHostView,
)
    ensures
        placed_views(views, provider, placement).contains(view) <==> views.contains(view)
            && view.descriptor.placement == placement && (provider is None || provider == Some(
            view.provider,
        )),
{
    let keep = |view: ResolvedHostView|
        (provider matches Some(p) ==> view.provider == p) && view.descriptor.placement == placement;
    filtered_list_holds(views, keep, view);
}

/// Whether all plugins publish under ids of their own, and every view and
/// every action names a published dataset that it is meant for.
pub open spec fn fits_together(contributions: Seq<HostRegistryContribution>) -> bool {
    &&& forall|q: int, m: int|
        0 <= q < contributions.len() && 0 <= m < contributions[q].registry.datasets@.len()
            ==> #[trigger] dataset_has_its_own_id(contributions, q, m)
    &&& forall|p: int, k: int|
        0 <= p < contributions.len() && 0 <= k < contributions[p].registry.views@.len()
            ==> #[trigger] view_has_its_own_id(contributions, p, k) && exists|q: int, m: int|
            0 <= q < contributions.len() && 0 <= m < contributions[q].registry.datasets@.len()
                && meant_for(
                contributions[p].registry.views@[k],
                #[trigger] contributions[q].registry.datasets@[m],
            )
    &&& forall|p: int, k: int|
        0 <= p < contributions.len() && 0 <= k < contributions[p].registry.actions@.len()
            ==> #[trigger] action_has_its_own_id(contributions, p, k) && exists|q: int, m: int|
            0 <= q < contributions.len() && 0 <= m < contributions[q].registry.datasets@.len() && (
            #[trigger] contributions[q].registry.datasets@[m]).id@
                == contributions[p].registry.actions@[k].scope.dataset()
}

/// Whether a view names the dataset, and the dataset is of its kind.
pub open spec fn meant_for(view: HostViewDescriptor, dataset: HostDatasetDescriptor) -> bool {
    &&& view.dataset_id@ == dataset.id@
    &&& match dataset.kind {
        HostDatasetKind::Image2dV1 => view.kind is ImageWindow,
        HostDatasetKind::Series1dV1 => view.kind is LineSeriesWindow,
        HostDatasetKind::TableV1(_) => view.kind is CompactTable || view.kind is TableWindow
            || view.kind is Density2dFromTable || view.kind is Scatter2dFromTable
            || view.kind is Scatter3dFromTable,
    }
}

/// Plugins that fit together are resolved without a warning.
pub proof fn fitting_contributions_need_no_warning(contributions: Seq<HostRegistryContribution>)
    requires
        fits_together(contributions),
    ensures
        resolution(contributions).warnings.len() == 0,
{
    let n = contributions.len() as int;
    let all = contributed(contributions);
    assert(contributions.take(n) =~= contributions);
    fitting_claims_need_no_warning(contributions, n);
    registered_items_were_published(contributions, n);
    contributed_unique(contributions);
    assert forall|i: int| 0 <= i < all.views.len() implies view_fits(
        #[trigger] all.views[i],
        all.datasets,
    ) by {
        let view = all.views[i].descriptor;
        assert(publishes_view(contributions, view));
        let (p, k) = choose|p: int, k: int|
            0 <= p < contributions.len() && 0 <= k < contributions[p].registry.views@.len()
                && #[trigger] contributions[p].registry.views@[k] == view;
        assert(view_has_its_own_id(contributions, p, k));
        let (q, m) = choose|q: int, m: int|
            0 <= q < contributions.len() && 0 <= m < contributions[q].registry.datasets@.len()
                && meant_for(view, #[trigger] contributions[q].registry.datasets@[m]);
        assert(dataset_has_its_own_id(contributions, q, m));
        published_dataset_is_found(contributions, q, m);
    }
    nothing_to_drop_among_views(all.views, all.datasets, all.warnings);
    assert forall|i: int| 0 <= i < all.actions.len() implies find_id(
        all.datasets,
        (#[trigger] all.actions[i]).descriptor.scope.dataset(),
    ) is Some by {
        let action = all.actions[i].descriptor;
        assert(publishes_action(contributions, action));
        let (p, k) = choose|p: int, k: int|
            0 <= p < contributions.len() && 0 <= k < contributions[p].registry.actions@.len()
                && #[trigger] contributions[p].registry.actions@[k] == action;
        assert(action_has_its_own_id(contributions, p, k));
        let (q, m) = choose|q: int, m: int|
            0 <= q < contributions.len() && 0 <= m < contributions[q].registry.datasets@.len() && (
            #[trigger] contributions[q].registry.datasets@[m]).id@ == action.scope.dataset();
        assert(dataset_has_its_own_id(contributions, q, m));
        published_dataset_is_found(contributions, q, m);
    }
    nothing_to_drop_among_actions(all.actions, all.datasets, all.warnings);
}

proof fn published_dataset_is_found(
    contributions: Seq<HostRegistryContribution>,
    q: int,
    m: int,
)
    requires
        dataset_has_its_own_id(contributions, q, m),
    ensures
        ({
            let dataset = contributions[q].registry.datasets@[m];
            let all = contributed(contributions);
            find_id(all.datasets, dataset.id@) matches Some(i) && all.datasets[i].descriptor
                == dataset
        }),
{
    let n = contributions.len() as int;
    let all = contributed(contributions);
    let dataset = contributions[q].registry.datasets@[m];
    assert(contributions.take(n) =~= contributions);
    dataset_of_its_own_id_is_registered(contributions, q, m, n);
    contributed_unique(contributions);
    find_id_is_first(all.datasets, dataset.id@);
    let item = Resolved {
        descriptor: dataset,
        provider: contributions[q].provider,
        provider_name: contributions[q].provider_name,
    };
    let at = choose|i: int| 0 <= i < all.datasets.len() && all.datasets[i] == item;
    let found = find_id(all.datasets, dataset.id@);
    assert(all.datasets[at].descriptor.id_view() == dataset.id@);
    if found->0 < at {
        assert(all.datasets[found->0].descriptor.id_view()
            != all.datasets[at].descriptor.id_view());
    }
}

proof fn nothing_to_drop_among_views(
    views: Seq<ResolvedHostView>,
    datasets: Seq<ResolvedHostDataset>,
    warnings: Seq<Seq<char>>,
)
    requires
        forall|i: int| 0 <= i < views.len() ==> view_fits(#[trigger] views[i], datasets),
    ensures
        kept_views(views, datasets, warnings).warnings == warnings,
    decreases views.len(),
{
    if views.len() > 0 {
        let rest = views.drop_last();
        assert(forall|i: int| 0 <= i < rest.len() ==> #[trigger] rest[i] == views[i]);
        assert(view_fits(views[views.len() - 1], datasets));
        nothing_to_drop_among_views(rest, datasets, warnings);
    }
}

proof fn nothing_to_drop_among_actions(
    actions: Seq<ResolvedHostAction>,
    datasets: Seq<ResolvedHostDataset>,
    warnings: Seq<Seq<char>>,
)
    requires
        forall|i: int|
            0 <= i < actions.len() ==> find_id(
                datasets,
                (#[trigger] actions[i]).descriptor.scope.dataset(),
            ) is Some,
    ensures
        kept_actions(actions, datasets, warnings).warnings == warnings,
    decreases actions.len(),
{
    if actions.len() > 0 {
        let rest = actions.drop_last();
        assert(forall|i: int| 0 <= i < rest.len() ==> #[trigger] rest[i] == actions[i]);
        assert(actions.last() == actions[actions.len() - 1]);
        nothing_to_drop_among_actions(rest, datasets, warnings);
    }
}

proof fn fitting_claims_need_no_warning(contributions: Seq<HostRegistryContribution>, n: int)
    requires
        fits_together(contributions),
        0 <= n <= contributions.len(),
    ensures
        contributed(contributions.take(n)).warnings.len() == 0,
    decreases n,
{
    if n == 0 {
        assert(contributions.take(0) =~= Seq::empty());
    } else {
        fitting_claims_need_no_warning(contributions, n - 1);
        contributed_step(contributions, n - 1);
        let model = contributed(contributions.take(n - 1));
        let next = contributions[n - 1];
        let datasets = Claims { items: model.datasets, warnings: model.warnings };
        assert forall|m: int| 0 <= m < next.registry.datasets@.len() implies !is_blank(
            (#[trigger] next.registry.datasets@[m]).id_view(),
        ) && find_id(model.datasets, next.registry.datasets@[m].id_view()) is None by {
            assert(dataset_has_its_own_id(contributions, n - 1, m));
            dataset_of_its_own_id_is_registered(contributions, n - 1, m, n - 1);
        }
        assert forall|a: int, b: int| 0 <= a < b < next.registry.datasets@.len() implies (
        #[trigger] next.registry.datasets@[a]).id_view() != (
        #[trigger] next.registry.datasets@[b]).id_view() by {
            assert(dataset_has_its_own_id(contributions, n - 1, b));
            assert(contributions[n - 1].registry.datasets@[a].id@
                != contributions[n - 1].registry.datasets@[b].id@);
        }
        own_ids_need_no_warning(
            datasets,
            next.provider,
            next.provider_name,
            next.registry.datasets@,
        );
        let first = claim_all(
            datasets,
            next.provider,
            next.provider_name,
            next.registry.datasets@,
        );
        let views = Claims { items: model.views, warnings: first.warnings };
        assert forall|m: int| 0 <= m < next.registry.views@.len() implies !is_blank(
            (#[trigger] next.registry.views@[m]).id_view(),
        ) && find_id(model.views, next.registry.views@[m].id_view()) is None by {
            assert(view_has_its_own_id(contributions, n - 1, m));
            view_of_its_own_id_is_registered(contributions, n - 1, m, n - 1);
        }
        assert forall|a: int, b: int| 0 <= a < b < next.registry.views@.len() implies (
        #[trigger] next.registry.views@[a]).id_view() != (
        #[trigger] next.registry.views@[b]).id_view() by {
            assert(view_has_its_own_id(contributions, n - 1, b));
            assert(contributions[n - 1].registry.views@[a].id@
                != contributions[n - 1].registry.views@[b].id@);
        }
        own_ids_need_no_warning(views, next.provider, next.provider_name, next.registry.views@);
        let second = claim_all(views, next.provider, next.provider_name, next.registry.views@);
        assert forall|m: int| 0 <= m < next.registry.actions@.len() implies !is_blank(
            (#[trigger] next.registry.actions@[m]).id_view(),
        ) && find_id(model.actions, next.registry.actions@[m].id_view()) is None by {
            assert(action_has_its_own_id(contributions, n - 1, m));
            action_of_its_own_id_is_registered(contributions, n - 1, m, n - 1);
        }
        assert forall|a: int, b: int| 0 <= a < b < next.registry.actions@.len() implies (
        #[trigger] next.registry.actions@[a]).id_view() != (
        #[trigger] next.registry.actions@[b]).id_view() by {
            assert(action_has_its_own_id(contributions, n - 1, b));
            assert(contributions[n - 1].registry.actions@[a].id@
                != contributions[n - 1].registry.actions@[b].id@);
        }
        own_ids_need_no_warning(
            Claims { items: model.actions, warnings: second.warnings },
            next.provider,
            next.provider_name,
            next.registry.actions@,
        );
    }
}

/// An action with an id of its own that names a published dataset stands in
/// the registry as its plugin published it.
pub proof fn actions_of_published_datasets_are_kept(
    contributions: Seq<HostRegistryContribution>,
    p: int,
    k: int,
    q: int,
    m: int,
)
    requires
        action_has_its_own_id(contributions, p, k),
        dataset_has_its_own_id(contributions, q, m),
        contributions[p].registry.actions@[k].scope.dataset()
            == contributions[q].registry.datasets@[m].id@,
    ensures
        resolution(contributions).actions.contains(
            Resolved {
                descriptor: contributions[p].registry.actions@[k],
                provider: contributions[p].provider,
                provider_name: contributions[p].provider_name,
            },
        ),
{
    let n = contributions.len() as int;
    assert(contributions.take(n) =~= contributions);
    action_of_its_own_id_is_registered(contributions, p, k, n);
    published_dataset_is_found(contributions, q, m);
    let all = contributed(contributions);
    let views = kept_views(all.views, all.datasets, all.warnings);
    kept_actions_hold(
        all.actions,
        all.datasets,
        views.warnings,
        Resolved {
            descriptor: contributions[p].registry.actions@[k],
            provider: contributions[p].provider,
            provider_name: contributions[p].provider_name,
        },
    );
}

} // verus!
