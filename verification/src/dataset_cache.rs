//! The host's copies of the datasets that plugins publish.
use crate::binary64::{Real32, Real64};
use crate::host_data::{HostDatasetDescriptor, HostDatasetKind, TableDatasetV1, TableSchema};
use crate::registry::{
    find_id, find_id_is_first, HostViewProviderKey, Registered, RegistryModel,
    ResolvedHostViewRegistry,
};
use crate::text::{decimal, push_decimal};
use crate::text_map::TextMap;
use vstd::prelude::*;

verus! {

/// An image with one number for each pixel, row by row.
#[derive(Debug, Clone)]
pub struct Image2dV1 {
    pub width: usize,
    pub height: usize,
    pub pixels: Vec<Real32>,
}

#[derive(Debug, Clone, Copy, PartialEq, Eq, Structural)]
pub struct Series1dPoint {
    pub x: Real64,
    pub y: Real64,
}

#[derive(Debug, Clone)]
pub struct Series1dLine {
    pub name: String,
    pub points: Vec<Series1dPoint>,
}

/// Several lines over one axis.
#[derive(Debug, Clone)]
pub struct Series1dV1 {
    pub x_label: String,
    pub y_label: String,
    pub lines: Vec<Series1dLine>,
}

#[derive(Debug, Clone)]
pub enum HostDatasetSnapshot {
    Table(TableDatasetV1),
    Image2d(Image2dV1),
    Series1d(Series1dV1),
}

/// A dataset as it was last loaded: nothing yet, a snapshot, or the message of
/// a failure.
#[derive(Debug)]
pub struct HostDatasetCacheEntry {
    pub generation: u64,
    pub snapshot: Result<Option<HostDatasetSnapshot>, String>,
}

/// The table of a cache entry: nothing where nothing was loaded, and a message
/// where loading failed or gave something else.
pub fn cached_table(entry: Option<&HostDatasetCacheEntry>) -> (out: Result<
    Option<&TableDatasetV1>,
    &str,
>)
    ensures
        match entry {
            None => out == Ok::<Option<&TableDatasetV1>, &str>(None),
            Some(entry) => match entry.snapshot {
                Ok(Some(HostDatasetSnapshot::Table(table))) => out == Ok::<
                    Option<&TableDatasetV1>,
                    &str,
                >(Some(&table)),
                Ok(None) => out == Ok::<Option<&TableDatasetV1>, &str>(None),
                Err(message) => out matches Err(text) && text@ == message@,
                Ok(Some(_)) => out matches Err(text) && text@
                    == "cached dataset is not a table dataset"@,
            },
        },
{
    match entry {
        None => Ok(None),
        Some(entry) => match &entry.snapshot {
            Ok(Some(HostDatasetSnapshot::Table(table))) => Ok(Some(table)),
            Ok(None) => Ok(None),
            Err(message) => Err(message.as_str()),
            Ok(Some(HostDatasetSnapshot::Image2d(_))) => Err(
                "cached dataset is not a table dataset",
            ),
            Ok(Some(HostDatasetSnapshot::Series1d(_))) => Err(
                "cached dataset is not a table dataset",
            ),
        },
    }
}

/// The image of a cache entry, as `cached_table` gives a table.
pub fn cached_image(entry: Option<&HostDatasetCacheEntry>) -> (out: Result<
    Option<&Image2dV1>,
    &str,
>)
    ensures
        match entry {
            None => out == Ok::<Option<&Image2dV1>, &str>(None),
            Some(entry) => match entry.snapshot {
                Ok(Some(HostDatasetSnapshot::Image2d(image))) => out == Ok::<
                    Option<&Image2dV1>,
                    &str,
                >(Some(&image)),
                Ok(None) => out == Ok::<Option<&Image2dV1>, &str>(None),
                Err(message) => out matches Err(text) && text@ == message@,
                Ok(Some(_)) => out matches Err(text) && text@
                    == "cached dataset is not an image dataset"@,
            },
        },
{
    match entry {
        None => Ok(None),
        Some(entry) => match &entry.snapshot {
            Ok(Some(HostDatasetSnapshot::Image2d(image))) => Ok(Some(image)),
            Ok(None) => Ok(None),
            Err(message) => Err(message.as_str()),
            Ok(Some(HostDatasetSnapshot::Table(_))) => Err(
                "cached dataset is not an image dataset",
            ),
            Ok(Some(HostDatasetSnapshot::Series1d(_))) => Err(
                "cached dataset is not an image dataset",
            ),
        },
    }
}

/// The line series of a cache entry, as `cached_table` gives a table.
pub fn cached_series(entry: Option<&HostDatasetCacheEntry>) -> (out: Result<
    Option<&Series1dV1>,
    &str,
>)
    ensures
        match entry {
            None => out == Ok::<Option<&Series1dV1>, &str>(None),
            Some(entry) => match entry.snapshot {
                Ok(Some(HostDatasetSnapshot::Series1d(series))) => out == Ok::<
                    Option<&Series1dV1>,
                    &str,
                >(Some(&series)),
                Ok(None) => out == Ok::<Option<&Series1dV1>, &str>(None),
                Err(message) => out matches Err(text) && text@ == message@,
                Ok(Some(_)) => out matches Err(text) && text@
                    == "cached dataset is not a line-series dataset"@,
            },
        },
{
    match entry {
        None => Ok(None),
        Some(entry) => match &entry.snapshot {
            Ok(Some(HostDatasetSnapshot::Series1d(series))) => Ok(Some(series)),
            Ok(None) => Ok(None),
            Err(message) => Err(message.as_str()),
            Ok(Some(HostDatasetSnapshot::Table(_))) => Err(
                "cached dataset is not a line-series dataset",
            ),
            Ok(Some(HostDatasetSnapshot::Image2d(_))) => Err(
                "cached dataset is not a line-series dataset",
            ),
        },
    }
}

/// What to do about a dataset before it is used.
#[derive(Debug, Clone, PartialEq, Eq)]
pub enum CacheStep {
    /// The cached copy is of the plugin's present generation.
    Keep,
    /// The present generation has to be loaded from the plugin.
    Load { generation: u64 },
    /// The plugin cannot be asked; the cache holds the reason.
    Fail { message: String },
}

/// Decides what to do about a dataset from its cached copy and from the
/// generation that the plugin reports.
pub fn cache_step(
    cached: Option<&HostDatasetCacheEntry>,
    generation: Result<u64, String>,
) -> (out: CacheStep)
    ensures
        match generation {
            Err(message) => out == (CacheStep::Fail { message }),
            Ok(present) => if cached matches Some(entry) && entry.generation == present {
                out == CacheStep::Keep
            } else {
                out == (CacheStep::Load { generation: present })
            },
        },
{
    match generation {
        Err(message) => CacheStep::Fail { message },
        Ok(present) => {
            if let Some(entry) = cached {
                if entry.generation == present {
                    return CacheStep::Keep;
                }
            }
            CacheStep::Load { generation: present }
        },
    }
}

/// What is known of a plugin slot when a dataset is asked for.
#[derive(Debug, Clone)]
pub struct ProviderRecord {
    pub name: String,
    pub available: bool,
}

/// The plugin slot that publishes a dataset, or why there is none.
pub fn dataset_provider(
    registry: &ResolvedHostViewRegistry,
    providers: &Vec<ProviderRecord>,
    dataset_id: &str,
) -> (out: Result<usize, String>)
    ensures
        match find_id(registry.model().datasets, dataset_id@) {
            None => out matches Err(message) && message@ == "unknown host dataset "@ + dataset_id@,
            Some(i) => match registry.model().datasets[i].provider {
                HostViewProviderKey::Runtime(index) => if index >= providers@.len() {
                    out matches Err(message) && message@ == "runtime provider index "@ + decimal(
                        index as nat,
                    ) + " is out of range for dataset "@ + dataset_id@
                } else if !providers@[index as int].available {
                    out matches Err(message) && message@ == "runtime provider "@
                        + providers@[index as int].name@ + " is unavailable for dataset "@
                        + dataset_id@
                } else {
                    out == Ok::<usize, String>(index)
                },
            },
        },
{
    match registry.dataset(dataset_id) {
        None => {
            let mut message = "unknown host dataset ".to_owned();
            message.append(dataset_id);
            Err(message)
        },
        Some(dataset) => match dataset.provider {
            HostViewProviderKey::Runtime(index) => {
                if index >= providers.len() {
                    let mut message = "runtime provider index ".to_owned();
                    push_decimal(&mut message, index as u64);
                    message.append(" is out of range for dataset ");
                    message.append(dataset_id);
                    Err(message)
                } else if !providers[index].available {
                    let mut message = "runtime provider ".to_owned();
                    message.append(providers[index].name.as_str());
                    message.append(" is unavailable for dataset ");
                    message.append(dataset_id);
                    Err(message)
                } else {
                    Ok(index)
                }
            },
        },
    }
}

/// A table with what is needed to read it.
pub struct TableEntry {
    pub descriptor: HostDatasetDescriptor,
    pub schema: TableSchema,
    pub generation: u64,
    pub table: TableDatasetV1,
}

/// The table of a resolved dataset, where one is loaded.
pub open spec fn table_of(
    registry: RegistryModel,
    cache: TextMap<HostDatasetCacheEntry>,
    dataset_id: Seq<char>,
) -> Option<TableEntry> {
    match find_id(registry.datasets, dataset_id) {
        Some(i) => match registry.datasets[i].descriptor.kind {
            HostDatasetKind::TableV1(schema) => match cache.at(dataset_id) {
                Some(entry) => match entry.snapshot {
                    Ok(Some(HostDatasetSnapshot::Table(table))) => Some(
                        TableEntry {
                            descriptor: registry.datasets[i].descriptor,
                            schema,
                            generation: entry.generation,
                            table,
                        },
                    ),
                    _ => None,
                },
                None => None,
            },
            _ => None,
        },
        None => None,
    }
}

/// A borrowed table with what is needed to read it.
#[derive(Clone, Copy)]
pub struct TableHandle<'a> {
    pub descriptor: &'a HostDatasetDescriptor,
    pub schema: &'a TableSchema,
    pub generation: u64,
    pub table: &'a TableDatasetV1,
}

impl<'a> TableHandle<'a> {
    pub open spec fn entry(self) -> TableEntry {
        TableEntry {
            descriptor: *self.descriptor,
            schema: *self.schema,
            generation: self.generation,
            table: *self.table,
        }
    }
}

pub fn find_table<'a>(
    registry: &'a ResolvedHostViewRegistry,
    cache: &'a TextMap<HostDatasetCacheEntry>,
    dataset_id: &str,
) -> (out: Option<TableHandle<'a>>)
    ensures
        match out {
            Some(handle) => table_of(registry.model(), *cache, dataset_id@) == Some(handle.entry()),
            None => table_of(registry.model(), *cache, dataset_id@) is None,
        },
{
    match registry.dataset(dataset_id) {
        Some(dataset) => match &dataset.descriptor.kind {
            HostDatasetKind::TableV1(schema) => match cache.get(dataset_id) {
                Some(entry) => match &entry.snapshot {
                    Ok(Some(HostDatasetSnapshot::Table(table))) => Some(
                        TableHandle {
                            descriptor: &dataset.descriptor,
                            schema,
                            generation: entry.generation,
                            table,
                        },
                    ),
                    _ => None,
                },
                None => None,
            },
            _ => None,
        },
        None => None,
    }
}

/// A table is read from the first registered dataset of its id, if that is a
/// table and a table is cached under the id.
pub proof fn tables_are_found_by_their_dataset(
    registry: RegistryModel,
    cache: TextMap<HostDatasetCacheEntry>,
    dataset_id: Seq<char>,
    d: int,
)
    requires
        0 <= d < registry.datasets.len(),
        registry.datasets[d].descriptor.id@ == dataset_id,
        forall|k: int|
            0 <= k < d ==> (#[trigger] registry.datasets[k]).descriptor.id@ != dataset_id,
    ensures
        table_of(registry, cache, dataset_id) matches Some(found) ==> found.descriptor
            == registry.datasets[d].descriptor && found.descriptor.kind == HostDatasetKind::TableV1(
            found.schema,
        ) && (cache.at(dataset_id) matches Some(entry) && entry.generation == found.generation
            && entry.snapshot == Ok::<_, String>(Some(HostDatasetSnapshot::Table(found.table)))),
        table_of(registry, cache, dataset_id) is Some <==> registry.datasets[d].descriptor.kind
            is TableV1 && (cache.at(dataset_id) matches Some(entry) && (entry.snapshot matches Ok(
            Some(snapshot),
        ) && snapshot is Table)),
{
    find_id_is_first(registry.datasets, dataset_id);
    assert(registry.datasets[d].descriptor.id_view() == dataset_id);
    match find_id(registry.datasets, dataset_id) {
        Some(i) => {
            assert(registry.datasets[i].descriptor.id_view() == dataset_id);
            if d < i {
                assert(registry.datasets[d].descriptor.id_view() != dataset_id);
            }
            if i < d {
                assert(registry.datasets[i].descriptor.id@ != dataset_id);
            }
        },
        None => {},
    }
}

} // verus!
