//! The state behind the views that plugins publish: which of them are known,
//! which windows are open, what was drawn, and the data that was loaded.
use crate::dataset_cache::{cache_step, CacheStep, HostDatasetCacheEntry, HostDatasetSnapshot};
use crate::host_data::HostViewRegistry;
use crate::raster::{HostViewRenderState, RasterViewState};
use crate::registry::{
    find_id, resolution, resolve_host_view_registry, texts, HostRegistryContribution,
    HostViewProviderKey, ResolvedHostViewRegistry,
};
use crate::text_map::{keys_distinct, TextMap};
use vstd::prelude::*;

verus! {

/// What a plugin slot publishes, or why that could not be read. Only a plugin
/// that runs is asked.
#[derive(Debug)]
pub struct PluginViews {
    pub name: String,
    pub active: bool,
    pub views: Result<HostViewRegistry, String>,
}

/// What the plugins that run publish, under their slots.
pub open spec fn contributions_of(slots: Seq<PluginViews>) -> Seq<HostRegistryContribution>
    decreases slots.len(),
{
    if slots.len() == 0 {
        Seq::empty()
    } else {
        let before = contributions_of(slots.drop_last());
        let slot = slots.last();
        match slot.views {
            Ok(registry) => if slot.active {
                before.push(
                    HostRegistryContribution {
                        provider: HostViewProviderKey::Runtime((slots.len() - 1) as usize),
                        provider_name: slot.name,
                        registry,
                    },
                )
            } else {
                before
            },
            Err(_) => before,
        }
    }
}

/// The warnings about what could not be read.
pub open spec fn read_warnings(slots: Seq<PluginViews>) -> Seq<Seq<char>>
    decreases slots.len(),
{
    if slots.len() == 0 {
        Seq::empty()
    } else {
        let before = read_warnings(slots.drop_last());
        let slot = slots.last();
        match slot.views {
            Err(error) => if slot.active {
                before.push("Failed to read host views from "@ + slot.name@ + ": "@ + error@)
            } else {
                before
            },
            Ok(_) => before,
        }
    }
}

fn gather(slots: Vec<PluginViews>) -> (out: (Vec<HostRegistryContribution>, Vec<String>))
    ensures
        out.0@ == contributions_of(slots@),
        texts(out.1@) == read_warnings(slots@),
{
    let mut contributions: Vec<HostRegistryContribution> = Vec::new();
    let mut warnings: Vec<String> = Vec::new();
    let ghost all = slots@;
    let mut index: usize = 0;
    let count: usize = slots.len();
    proof {
        assert(all.take(0) =~= Seq::empty());
        assert(texts(warnings@) =~= Seq::empty());
    }
    for slot in it: slots
        invariant
            it.seq() == all,
            count == all.len(),
            index == it.index(),
            contributions@ == contributions_of(all.take(index as int)),
            texts(warnings@) == read_warnings(all.take(index as int)),
    {
        proof {
            assert(all.take(index + 1).drop_last() =~= all.take(index as int));
            assert(all.take(index + 1).last() == slot);
        }
        if slot.active {
            match slot.views {
                Ok(registry) => contributions.push(
                    HostRegistryContribution {
                        provider: HostViewProviderKey::Runtime(index),
                        provider_name: slot.name,
                        registry,
                    },
                ),
                Err(error) => {
                    let mut text = "Failed to read host views from ".to_owned();
                    text.append(slot.name.as_str());
                    text.append(": ");
                    text.append(error.as_str());
                    let ghost before = warnings@;
                    warnings.push(text);
                    assert(texts(warnings@) =~= texts(before).push(text@));
                },
            }
        }
        index = index + 1;
    }
    assert(all.take(all.len() as int) =~= all);
    (contributions, warnings)
}

/// The state behind the views.
#[derive(Debug)]
pub struct HostViewState<I> {
    pub registry: ResolvedHostViewRegistry,
    /// Whether the plugins have to be asked again.
    pub registry_dirty: bool,
    pub warnings: Vec<String>,
    pub window_open: TextMap<bool>,
    pub render_state: TextMap<HostViewRenderState<I>>,
    pub dataset_cache: TextMap<HostDatasetCacheEntry>,
}

/// What was drawn, to be drawn anew.
pub open spec fn dirtied<I>(state: HostViewRenderState<I>) -> HostViewRenderState<I> {
    match state {
        HostViewRenderState::Nothing => HostViewRenderState::Nothing,
        HostViewRenderState::Density2d(state) => HostViewRenderState::Density2d(
            RasterViewState { dirty: true, ..state },
        ),
        HostViewRenderState::Image2d(state) => HostViewRenderState::Image2d(
            RasterViewState { dirty: true, ..state },
        ),
    }
}

fn same_texts(a: &Vec<String>, b: &Vec<String>) -> (out: bool)
    ensures
        out == (texts(a@) == texts(b@)),
{
    if a.len() != b.len() {
        assert(texts(a@).len() != texts(b@).len());
        return false;
    }
    let mut i: usize = 0;
    while i < a.len()
        invariant
            a@.len() == b@.len(),
            i <= a@.len(),
            forall|k: int| 0 <= k < i ==> (#[trigger] a@[k])@ == b@[k]@,
        decreases a@.len() - i,
    {
        if a[i] != b[i] {
            assert(texts(a@)[i as int] != texts(b@)[i as int]);
            return false;
        }
        i = i + 1;
    }
    assert(texts(a@) =~= texts(b@));
    true
}

impl<I> HostViewState<I> {
    pub open spec fn wf(self) -> bool {
        &&& self.window_open.wf()
        &&& self.render_state.wf()
        &&& self.dataset_cache.wf()
    }

    /// The state of a session in which no plugin was asked yet.
    pub fn new() -> (out: Self)
        ensures
            out.wf(),
            out.registry.model() == resolution(Seq::empty()),
            out.registry_dirty,
            out.warnings@.len() == 0,
            out.window_open.entries().len() == 0,
            out.render_state.entries().len() == 0,
            out.dataset_cache.entries().len() == 0,
    {
        HostViewState {
            registry: ResolvedHostViewRegistry::empty(),
            registry_dirty: true,
            warnings: Vec::new(),
            window_open: TextMap::new(),
            render_state: TextMap::new(),
            dataset_cache: TextMap::new(),
        }
    }

    /// Takes over what the plugins publish now. What belonged to views and
    /// datasets that are gone is forgotten. Gives whether there are other
    /// warnings than before.
    pub fn refresh_host_view_registry(&mut self, slots: Vec<PluginViews>) -> (new_warnings: bool)
        requires
            old(self).wf(),
        ensures
            final(self).wf(),
            !final(self).registry_dirty,
            final(self).registry.model() == resolution(contributions_of(slots@)),
            texts(final(self).warnings@) == read_warnings(slots@) + resolution(
                contributions_of(slots@),
            ).warnings,
            new_warnings == (texts(final(self).warnings@) != texts(old(self).warnings@)),
            forall|id: Seq<char>| #[trigger]
                final(self).window_open.at(id) == (if find_id(
                    final(self).registry.model().views,
                    id,
                ) is Some {
                    old(self).window_open.at(id)
                } else {
                    None
                }),
            forall|id: Seq<char>| #[trigger]
                final(self).render_state.at(id) == (if find_id(
                    final(self).registry.model().views,
                    id,
                ) is Some {
                    old(self).render_state.at(id)
                } else {
                    None
                }),
            forall|id: Seq<char>| #[trigger]
                final(self).dataset_cache.at(id) == (if find_id(
                    final(self).registry.model().datasets,
                    id,
                ) is Some {
                    old(self).dataset_cache.at(id)
                } else {
                    None
                }),
    {
        self.registry_dirty = false;
        let (contributions, mut warnings) = gather(slots);
        let resolved = resolve_host_view_registry(contributions);
        let ghost read = texts(warnings@);
        let found = resolved.warnings();
        let ghost wanted = read + texts(found@);
        let mut i: usize = 0;
        assert(read + texts(found@.take(0)) =~= read);
        while i < found.len()
            invariant
                i <= found@.len(),
                texts(warnings@) == read + texts(found@.take(i as int)),
            decreases found@.len() - i,
        {
            let ghost before = warnings@;
            warnings.push(found[i].clone());
            proof {
                assert(found@.take(i + 1) =~= found@.take(i as int).push(found@[i as int]));
                assert(texts(found@.take(i + 1)) =~= texts(found@.take(i as int)).push(
                    found@[i as int]@,
                ));
                assert(texts(warnings@) =~= texts(before).push(found@[i as int]@));
                assert(texts(warnings@) =~= read + texts(found@.take(i + 1)));
            }
            i = i + 1;
        }
        assert(found@.take(found@.len() as int) =~= found@);
        let new_warnings: bool = !same_texts(&warnings, &self.warnings);
        self.warnings = warnings;
        let views = resolved.view_ids();
        let datasets = resolved.dataset_ids();
        self.window_open.retain_keys(&views);
        self.render_state.retain_keys(&views);
        self.dataset_cache.retain_keys(&datasets);
        self.registry = resolved;
        new_warnings
    }

    /// Forgets the loaded data, and marks what was drawn to be drawn anew.
    pub fn mark_host_view_datasets_stale(&mut self)
        requires
            old(self).wf(),
        ensures
            final(self).wf(),
            final(self).dataset_cache.entries().len() == 0,
            final(self).registry == old(self).registry,
            final(self).registry_dirty == old(self).registry_dirty,
            final(self).warnings == old(self).warnings,
            final(self).window_open == old(self).window_open,
            final(self).render_state.entries().len() == old(self).render_state.entries().len(),
            forall|i: int|
                0 <= i < old(self).render_state.entries().len() ==> (
                #[trigger] final(self).render_state.entries()[i]) == (
                    old(self).render_state.entries()[i].0,
                    dirtied(old(self).render_state.entries()[i].1),
                ),
    {
        let ghost before = self.render_state.entries();
        self.dataset_cache = TextMap::new();
        let count: usize = self.render_state.len();
        let mut i: usize = 0;
        while i < count
            invariant
                i <= count,
                count == before.len(),
                count == self.render_state.entries().len(),
                keys_distinct(before),
                self.dataset_cache.wf(),
                self.dataset_cache.entries().len() == 0,
                self.registry == old(self).registry,
                self.registry_dirty == old(self).registry_dirty,
                self.warnings == old(self).warnings,
                self.window_open == old(self).window_open,
                forall|k: int|
                    0 <= k < count ==> (#[trigger] self.render_state.entries()[k]) == (if k < i {
                        (before[k].0, dirtied(before[k].1))
                    } else {
                        before[k]
                    }),
            decreases count - i,
        {
            let state = self.render_state.value_mut_at(i);
            state.mark_dirty();
            i = i + 1;
        }
        proof {
            let after = self.render_state.entries();
            assert forall|a: int, b: int| 0 <= a < b < after.len() implies (
            #[trigger] after[a]).0@ != (#[trigger] after[b]).0@ by {
                assert(before[a].0@ != before[b].0@);
            }
        }
    }

    /// Whether a dataset has to be loaded, and in which generation. A plugin
    /// that cannot be asked leaves its reason in place of the data.
    pub fn begin_caching(&mut self, dataset_id: &str, generation: Result<u64, String>) -> (out:
        Option<u64>)
        requires
            old(self).wf(),
        ensures
            final(self).wf(),
            *final(self) == (HostViewState {
                dataset_cache: final(self).dataset_cache,
                ..*old(self)
            }),
            match generation {
                Ok(present) => {
                    &&& final(self).dataset_cache == old(self).dataset_cache
                    &&& out == (if old(self).dataset_cache.at(dataset_id@) matches Some(entry)
                        && entry.generation == present {
                        None
                    } else {
                        Some(present)
                    })
                },
                Err(error) => {
                    &&& out is None
                    &&& final(self).dataset_cache.at(dataset_id@) == Some(
                        HostDatasetCacheEntry { generation: 0, snapshot: Err(error) },
                    )
                    &&& forall|id: Seq<char>|
                        id != dataset_id@ ==> #[trigger] final(self).dataset_cache.at(id) == old(
                            self,
                        ).dataset_cache.at(id)
                },
            },
    {
        match cache_step(self.dataset_cache.get(dataset_id), generation) {
            CacheStep::Keep => None,
            CacheStep::Load { generation } => Some(generation),
            CacheStep::Fail { message } => {
                self.dataset_cache.insert(
                    dataset_id.to_owned(),
                    HostDatasetCacheEntry { generation: 0, snapshot: Err(message) },
                );
                None
            },
        }
    }

    /// Keeps the data that was loaded.
    pub fn finish_caching(
        &mut self,
        dataset_id: &str,
        generation: u64,
        snapshot: Result<Option<HostDatasetSnapshot>, String>,
    )
        requires
            old(self).wf(),
        ensures
            final(self).wf(),
            *final(self) == (HostViewState {
                dataset_cache: final(self).dataset_cache,
                ..*old(self)
            }),
            final(self).dataset_cache.at(dataset_id@) == Some(
                HostDatasetCacheEntry { generation, snapshot },
            ),
            forall|id: Seq<char>|
                id != dataset_id@ ==> #[trigger] final(self).dataset_cache.at(id) == old(
                    self,
                ).dataset_cache.at(id),
    {
        self.dataset_cache.insert(
            dataset_id.to_owned(),
            HostDatasetCacheEntry { generation, snapshot },
        );
    }
}

// ---------------------------------------------------------------------------
// Laws
// ---------------------------------------------------------------------------
/// What a running plugin publishes is taken over under its name and its slot,
/// and nothing else is.
pub proof fn running_plugins_contribute(
    slots: Seq<PluginViews>,
    contribution: HostRegistryContribution,
)
    requires
        slots.len() <= usize::MAX,
    ensures
        contributions_of(slots).contains(contribution) <==> exists|i: int|
            0 <= i < slots.len() && (#[trigger] slots[i]).active && slots[i].views == Ok::<
                HostViewRegistry,
                String,
            >(contribution.registry) && contribution.provider == HostViewProviderKey::Runtime(
                i as usize,
            ) && contribution.provider_name == slots[i].name,
    decreases slots.len(),
{
    if slots.len() > 0 {
        let rest = slots.drop_last();
        running_plugins_contribute(rest, contribution);
        let before = contributions_of(rest);
        let all = contributions_of(slots);
        let n = slots.len() - 1;
        let last = slots[n];
        assert(slots.last() == last);
        if before.contains(contribution) {
            let k = choose|k: int| 0 <= k < before.len() && before[k] == contribution;
            assert(all[k] == contribution);
            let i = choose|i: int|
                0 <= i < rest.len() && (#[trigger] rest[i]).active && rest[i].views == Ok::<
                    HostViewRegistry,
                    String,
                >(contribution.registry) && contribution.provider == HostViewProviderKey::Runtime(
                    i as usize,
                ) && contribution.provider_name == rest[i].name;
            assert(slots[i] == rest[i]);
        }
        if all.contains(contribution) && !before.contains(contribution) {
            let k = choose|k: int| 0 <= k < all.len() && all[k] == contribution;
            if k < before.len() {
                assert(before[k] == contribution);
            }
            assert(last.active && last.views == Ok::<HostViewRegistry, String>(
                contribution.registry,
            ));
        }
        if exists|i: int|
            0 <= i < slots.len() && (#[trigger] slots[i]).active && slots[i].views == Ok::<
                HostViewRegistry,
                String,
            >(contribution.registry) && contribution.provider == HostViewProviderKey::Runtime(
                i as usize,
            ) && contribution.provider_name == slots[i].name {
            let i = choose|i: int|
                0 <= i < slots.len() && (#[trigger] slots[i]).active && slots[i].views == Ok::<
                    HostViewRegistry,
                    String,
                >(contribution.registry) && contribution.provider == HostViewProviderKey::Runtime(
                    i as usize,
                ) && contribution.provider_name == slots[i].name;
            if i < rest.len() {
                assert(rest[i] == slots[i]);
            } else {
                assert(all == before.push(contribution));
                assert(all[before.len() as int] == contribution);
            }
        }
    }
}

/// A running plugin that cannot be read is warned about, by its name and the
/// error; nothing is said of a plugin that does not run.
pub proof fn unread_plugins_are_warned_about(slots: Seq<PluginViews>, warning: Seq<char>)
    ensures
        read_warnings(slots).contains(warning) <==> exists|i: int|
            0 <= i < slots.len() && (#[trigger] slots[i]).active && slots[i].views is Err && warning
                == "Failed to read host views from "@ + slots[i].name@ + ": "@
                + slots[i].views->Err_0@,
    decreases slots.len(),
{
    if slots.len() > 0 {
        let rest = slots.drop_last();
        unread_plugins_are_warned_about(rest, warning);
        let before = read_warnings(rest);
        let all = read_warnings(slots);
        let last = slots[slots.len() - 1];
        assert(slots.last() == last);
        if before.contains(warning) {
            let k = choose|k: int| 0 <= k < before.len() && before[k] == warning;
            assert(all[k] == warning);
            let i = choose|i: int|
                0 <= i < rest.len() && (#[trigger] rest[i]).active && rest[i].views is Err
                    && warning == "Failed to read host views from "@ + rest[i].name@ + ": "@
                    + rest[i].views->Err_0@;
            assert(slots[i] == rest[i]);
        }
        if all.contains(warning) && !before.contains(warning) {
            let k = choose|k: int| 0 <= k < all.len() && all[k] == warning;
            if k < before.len() {
                assert(before[k] == warning);
            }
            assert(last.active && last.views is Err);
        }
        if exists|i: int|
            0 <= i < slots.len() && (#[trigger] slots[i]).active && slots[i].views is Err && warning
                == "Failed to read host views from "@ + slots[i].name@ + ": "@
                + slots[i].views->Err_0@ {
            let i = choose|i: int|
                0 <= i < slots.len() && (#[trigger] slots[i]).active && slots[i].views is Err
                    && warning == "Failed to read host views from "@ + slots[i].name@ + ": "@
                    + slots[i].views->Err_0@;
            if i < rest.len() {
                assert(rest[i] == slots[i]);
            } else {
                assert(all[before.len() as int] == warning);
            }
        }
    }
}

/// Whatever was drawn is drawn anew, with the settings that it had.
pub proof fn drawings_are_made_anew<I>(state: HostViewRenderState<I>)
    ensures
        state matches HostViewRenderState::Density2d(before) ==> (dirtied(
            state,
        ) matches HostViewRenderState::Density2d(after) && after.dirty && after.settings
            == before.settings && after.image == before.image && after.rendered_generation
            == before.rendered_generation),
        state matches HostViewRenderState::Image2d(before) ==> (dirtied(
            state,
        ) matches HostViewRenderState::Image2d(after) && after.dirty && after.settings
            == before.settings && after.image == before.image && after.rendered_generation
            == before.rendered_generation),
        state is Nothing ==> dirtied(state) is Nothing,
{
}

} // verus!
