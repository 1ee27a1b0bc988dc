//! The views of the host: what each of them shows, the windows that they stand
//! in, and what is exported of them.
use crate::csv::{csv_text, table_csv};
use crate::dataset_cache::{
    cached_image, cached_series, cached_table, table_of, HostDatasetCacheEntry,
    HostDatasetSnapshot,
};
use crate::host_data::{HostDatasetKind, HostViewKind, HostViewPlacement};
use crate::investigation::TablePageSize;
use crate::naming::{extension_of, replay_file_extension, sanitize_file_stem, title_stem};
use crate::registry::{
    find_id, find_id_is_first, placed_views, Registered, RegistryModel, ResolvedHostView,
    ResolvedHostViewRegistry,
};
use crate::rows::StableRowKey;
use crate::table_view::{
    HostViewImageFormat, HostViewUiActions, LinkedTableViewOutput,
};
use crate::text::{lower_text, same_text};
use crate::text_map::TextMap;
use vstd::prelude::*;

verus! {

// ---------------------------------------------------------------------------
// Content
// ---------------------------------------------------------------------------
/// What a view shows of its dataset.
#[derive(Debug, Clone, Copy, PartialEq, Eq, Structural)]
pub enum ViewContent {
    /// The dataset is not there.
    Unavailable,
    SummaryCard,
    LinkedTable,
    Density,
    Scatter,
    Image,
    Lines,
    /// The view has no form for this kind of dataset.
    Mismatch,
}

/// What a kind of view shows of a kind of dataset.
pub open spec fn content_of(view: HostViewKind, dataset: HostDatasetKind) -> ViewContent {
    match (view, dataset) {
        (HostViewKind::CompactTable, HostDatasetKind::TableV1(_)) => ViewContent::SummaryCard,
        (HostViewKind::TableWindow, HostDatasetKind::TableV1(_)) => ViewContent::LinkedTable,
        (
            HostViewKind::Density2dFromTable { .. },
            HostDatasetKind::TableV1(_),
        ) => ViewContent::Density,
        (
            HostViewKind::Scatter2dFromTable { .. },
            HostDatasetKind::TableV1(_),
        ) => ViewContent::Scatter,
        (HostViewKind::ImageWindow, HostDatasetKind::Image2dV1) => ViewContent::Image,
        (HostViewKind::LineSeriesWindow, HostDatasetKind::Series1dV1) => ViewContent::Lines,
        _ => ViewContent::Mismatch,
    }
}

fn view_content(view: &HostViewKind, dataset: &HostDatasetKind) -> (out: ViewContent)
    ensures
        out == content_of(*view, *dataset),
{
    match (view, dataset) {
        (HostViewKind::CompactTable, HostDatasetKind::TableV1(_)) => ViewContent::SummaryCard,
        (HostViewKind::TableWindow, HostDatasetKind::TableV1(_)) => ViewContent::LinkedTable,
        (
            HostViewKind::Density2dFromTable { .. },
            HostDatasetKind::TableV1(_),
        ) => ViewContent::Density,
        (
            HostViewKind::Scatter2dFromTable { .. },
            HostDatasetKind::TableV1(_),
        ) => ViewContent::Scatter,
        (HostViewKind::ImageWindow, HostDatasetKind::Image2dV1) => ViewContent::Image,
        (HostViewKind::LineSeriesWindow, HostDatasetKind::Series1dV1) => ViewContent::Lines,
        _ => ViewContent::Mismatch,
    }
}

/// The message of a cached dataset that cannot be shown as a view's content.
pub open spec fn entry_problem(content: ViewContent, entry: Option<HostDatasetCacheEntry>) -> Option<
    Seq<char>,
> {
    match entry {
        None => None,
        Some(e) => match e.snapshot {
            Err(text) => Some(text@),
            Ok(None) => None,
            Ok(Some(snapshot)) => match content {
                ViewContent::Image => if snapshot is Image2d {
                    None
                } else {
                    Some("cached dataset is not an image dataset"@)
                },
                ViewContent::Lines => if snapshot is Series1d {
                    None
                } else {
                    Some("cached dataset is not a line-series dataset"@)
                },
                _ => if snapshot is Table {
                    None
                } else {
                    Some("cached dataset is not a table dataset"@)
                },
            },
        },
    }
}

pub open spec fn by_value(entry: Option<&HostDatasetCacheEntry>) -> Option<HostDatasetCacheEntry> {
    match entry {
        Some(e) => Some(*e),
        None => None,
    }
}

fn entry_message(content: ViewContent, entry: Option<&HostDatasetCacheEntry>) -> (out: Option<String>)
    ensures
        match out {
            Some(text) => entry_problem(content, by_value(entry)) == Some(text@),
            None => entry_problem(content, by_value(entry)) is None,
        },
{
    match content {
        ViewContent::Image => match cached_image(entry) {
            Ok(_) => None,
            Err(text) => Some(text.to_owned()),
        },
        ViewContent::Lines => match cached_series(entry) {
            Ok(_) => None,
            Err(text) => Some(text.to_owned()),
        },
        _ => match cached_table(entry) {
            Ok(_) => None,
            Err(text) => Some(text.to_owned()),
        },
    }
}

/// How a view is to be drawn.
#[derive(Debug)]
pub struct ViewPlan {
    pub content: ViewContent,
    /// The generation of the cached data, zero where there is none.
    pub generation: u64,
    /// What is shown in place of the content.
    pub message: Option<String>,
}

/// The cached data of a dataset.
pub open spec fn cached(cache: TextMap<HostDatasetCacheEntry>, dataset_id: Seq<char>) -> Option<
    HostDatasetCacheEntry,
> {
    cache.at(dataset_id)
}

/// The content of a view among what is registered.
pub open spec fn registered_content(model: RegistryModel, view: ResolvedHostView) -> ViewContent {
    match find_id(model.datasets, view.descriptor.dataset_id@) {
        None => ViewContent::Unavailable,
        Some(i) => content_of(view.descriptor.kind, model.datasets[i].descriptor.kind),
    }
}

/// What is shown in place of a view's content.
pub open spec fn view_problem(
    model: RegistryModel,
    cache: TextMap<HostDatasetCacheEntry>,
    view: ResolvedHostView,
) -> Option<Seq<char>> {
    let content = registered_content(model, view);
    match content {
        ViewContent::Unavailable => Some(
            "Dataset "@ + view.descriptor.dataset_id@ + " is unavailable."@,
        ),
        ViewContent::Mismatch => {
            let i = find_id(model.datasets, view.descriptor.dataset_id@)->0;
            Some(
                "View "@ + view.descriptor.id@ + " does not match dataset "@
                    + model.datasets[i].descriptor.id@ + "."@,
            )
        },
        _ => entry_problem(content, cached(cache, view.descriptor.dataset_id@)),
    }
}

/// Plans how a view is drawn.
pub fn plan_view(
    registry: &ResolvedHostViewRegistry,
    cache: &TextMap<HostDatasetCacheEntry>,
    view: &ResolvedHostView,
) -> (out: ViewPlan)
    ensures
        out.content == registered_content(registry.model(), *view),
        out.generation == (match cached(*cache, view.descriptor.dataset_id@) {
            Some(entry) => entry.generation,
            None => 0,
        }),
        match out.message {
            Some(text) => view_problem(registry.model(), *cache, *view) == Some(text@),
            None => view_problem(registry.model(), *cache, *view) is None,
        },
{
    let entry = cache.get(view.descriptor.dataset_id.as_str());
    assert(by_value(entry) == cached(*cache, view.descriptor.dataset_id@));
    let generation: u64 = match entry {
        Some(e) => e.generation,
        None => 0,
    };
    match registry.dataset(view.descriptor.dataset_id.as_str()) {
        None => {
            let mut text = "Dataset ".to_owned();
            text.append(view.descriptor.dataset_id.as_str());
            text.append(" is unavailable.");
            ViewPlan { content: ViewContent::Unavailable, generation, message: Some(text) }
        },
        Some(dataset) => {
            let content = view_content(&view.descriptor.kind, &dataset.descriptor.kind);
            if content == ViewContent::Mismatch {
                let mut text = "View ".to_owned();
                text.append(view.descriptor.id.as_str());
                text.append(" does not match dataset ");
                text.append(dataset.descriptor.id.as_str());
                text.append(".");
                return ViewPlan { content, generation, message: Some(text) };
            }
            ViewPlan { content, generation, message: entry_message(content, entry) }
        },
    }
}

// ---------------------------------------------------------------------------
// Windows
// ---------------------------------------------------------------------------
/// How the window of a view is to be drawn.
#[derive(Debug)]
pub struct WindowPlan {
    pub content: ViewContent,
    pub title: String,
    pub generation: u64,
    /// The message of data that could not be loaded or is of another kind.
    pub message: Option<String>,
}

/// Whether a view has a window that is open.
pub open spec fn is_open(open: TextMap<bool>, view_id: Seq<char>) -> bool {
    open.at(view_id) == Some(true)
}

/// Whether a content has a window.
pub open spec fn has_window(content: ViewContent) -> bool {
    !(content is Unavailable) && !(content is SummaryCard) && !(content is Mismatch)
}

/// The message of a window: what could not be loaded, and, for images, what is
/// of another kind.
pub open spec fn window_problem(content: ViewContent, entry: Option<HostDatasetCacheEntry>) -> Option<
    Seq<char>,
> {
    match content {
        ViewContent::Density => entry_problem(content, entry),
        ViewContent::Image => entry_problem(content, entry),
        _ => match entry {
            Some(e) => match e.snapshot {
                Err(text) => Some(text@),
                Ok(_) => None,
            },
            None => None,
        },
    }
}

/// The generation that a window shows: that of its data, zero where a table
/// has neither data nor a message.
pub open spec fn window_generation(content: ViewContent, entry: Option<HostDatasetCacheEntry>) ->
    u64 {
    match entry {
        Some(e) => if content is LinkedTable {
            match e.snapshot {
                Ok(Some(HostDatasetSnapshot::Table(_))) => e.generation,
                Err(_) => e.generation,
                _ => 0,
            }
        } else {
            e.generation
        },
        None => 0,
    }
}

fn window_message(content: ViewContent, entry: Option<&HostDatasetCacheEntry>) -> (out: Option<String>)
    ensures
        match out {
            Some(text) => window_problem(content, by_value(entry)) == Some(text@),
            None => window_problem(content, by_value(entry)) is None,
        },
{
    match content {
        ViewContent::Density => entry_message(content, entry),
        ViewContent::Image => entry_message(content, entry),
        _ => match entry {
            Some(e) => match &e.snapshot {
                Err(text) => Some(text.clone()),
                Ok(_) => None,
            },
            None => None,
        },
    }
}

/// Plans the window of a view: none where it is closed or its content has no
/// window. The window of a dataset that is gone is closed.
pub fn plan_window(
    registry: &ResolvedHostViewRegistry,
    cache: &TextMap<HostDatasetCacheEntry>,
    open: &mut TextMap<bool>,
    view: &ResolvedHostView,
) -> (out: Option<WindowPlan>)
    requires
        old(open).wf(),
    ensures
        final(open).wf(),
        ({
            let content = registered_content(registry.model(), *view);
            let entry = cached(*cache, view.descriptor.dataset_id@);
            let id = view.descriptor.id@;
            &&& out is Some <==> is_open(*old(open), id) && has_window(content)
            &&& out matches Some(plan) ==> {
                &&& plan.content == content
                &&& plan.title@ == view.descriptor.title@ + " \u{2014} AugurRS"@
                &&& plan.generation == window_generation(content, entry)
                &&& match plan.message {
                    Some(text) => window_problem(content, entry) == Some(text@),
                    None => window_problem(content, entry) is None,
                }
            }
            &&& forall|key: Seq<char>| #[trigger]
                final(open).at(key) == (if key == id && is_open(*old(open), id)
                    && content is Unavailable {
                    Some(false)
                } else {
                    old(open).at(key)
                })
        }),
{
    let opened = match open.get(view.descriptor.id.as_str()) {
        Some(flag) => *flag,
        None => false,
    };
    if !opened {
        return None;
    }
    match registry.dataset(view.descriptor.dataset_id.as_str()) {
        None => {
            open.insert(view.descriptor.id.clone(), false);
            None
        },
        Some(dataset) => {
            let content = view_content(&view.descriptor.kind, &dataset.descriptor.kind);
            if content == ViewContent::SummaryCard || content == ViewContent::Mismatch {
                return None;
            }
            let entry = cache.get(view.descriptor.dataset_id.as_str());
            assert(by_value(entry) == cached(*cache, view.descriptor.dataset_id@));
            let mut title = view.descriptor.title.clone();
            title.append(" \u{2014} AugurRS");
            let generation: u64 = match entry {
                Some(e) => {
                    let shown = match &e.snapshot {
                        Ok(Some(HostDatasetSnapshot::Table(_))) => true,
                        Err(_) => true,
                        _ => false,
                    };
                    if content == ViewContent::LinkedTable && !shown {
                        0
                    } else {
                        e.generation
                    }
                },
                None => 0,
            };
            Some(WindowPlan { content, title, generation, message: window_message(content, entry) })
        },
    }
}

/// Opens or closes the window of a view.
pub fn set_window_open(open: &mut TextMap<bool>, view_id: &str, flag: bool)
    requires
        old(open).wf(),
    ensures
        final(open).wf(),
        forall|key: Seq<char>| #[trigger]
            final(open).at(key) == (if key == view_id@ {
                Some(flag)
            } else {
                old(open).at(key)
            }),
{
    open.insert(view_id.to_owned(), flag);
}

/// Whether a view is the full table of a dataset.
pub open spec fn is_full_table(view: ResolvedHostView, dataset_id: Seq<char>) -> bool {
    view.descriptor.dataset_id@ == dataset_id && view.descriptor.kind is TableWindow
}

/// The window that shows the full table of a dataset: the first one.
pub fn full_table_window(registry: &ResolvedHostViewRegistry, dataset_id: &str) -> (out: Option<
    String,
>)
    ensures
        ({
            let views = placed_views(registry.model().views, None, HostViewPlacement::Window);
            match out {
                Some(id) => exists|i: int|
                    0 <= i < views.len() && (#[trigger] views[i]).descriptor.id@ == id@
                        && is_full_table(views[i], dataset_id@) && (forall|k: int|
                        0 <= k < i ==> !is_full_table(#[trigger] views[k], dataset_id@)),
                None => forall|k: int|
                    0 <= k < views.len() ==> !is_full_table(#[trigger] views[k], dataset_id@),
            }
        }),
{
    let windows = registry.window_views();
    let ghost views = placed_views(registry.model().views, None, HostViewPlacement::Window);
    assert(windows@.map_values(|view: &ResolvedHostView| *view) == views);
    assert(windows@.len() == views.len());
    let mut i: usize = 0;
    while i < windows.len()
        invariant
            i <= windows@.len(),
            windows@.len() == views.len(),
            views == placed_views(registry.model().views, None, HostViewPlacement::Window),
            windows@.map_values(|view: &ResolvedHostView| *view) == views,
            forall|k: int| 0 <= k < i ==> !is_full_table(#[trigger] views[k], dataset_id@),
        decreases windows@.len() - i,
    {
        let view = windows[i];
        assert(*view == windows@.map_values(|view: &ResolvedHostView| *view)[i as int]);
        let table = match &view.descriptor.kind {
            HostViewKind::TableWindow => true,
            _ => false,
        };
        if table && same_text(view.descriptor.dataset_id.as_str(), dataset_id) {
            assert(is_full_table(views[i as int], dataset_id@));
            return Some(view.descriptor.id.clone());
        }
        i = i + 1;
    }
    None
}

/// What the window of a view asked for since it was looked at last.
#[derive(Debug)]
pub struct WindowRequests {
    pub close: bool,
    pub clear: bool,
    pub export_csv: bool,
    pub export_image: Option<HostViewImageFormat>,
    pub selected_row: Option<StableRowKey>,
    pub sort_column: Option<String>,
    pub page_size: Option<TablePageSize>,
    pub page_index: Option<usize>,
}

pub open spec fn no_requests() -> WindowRequests {
    WindowRequests {
        close: false,
        clear: false,
        export_csv: false,
        export_image: None,
        selected_row: None,
        sort_column: None,
        page_size: None,
        page_index: None,
    }
}

impl Default for WindowRequests {
    fn default() -> (out: Self)
        ensures
            out == no_requests(),
    {
        WindowRequests {
            close: false,
            clear: false,
            export_csv: false,
            export_image: None,
            selected_row: None,
            sort_column: None,
            page_size: None,
            page_index: None,
        }
    }
}

/// The later of two requests.
pub open spec fn later<T>(before: Option<T>, after: Option<T>) -> Option<T> {
    if after is Some {
        after
    } else {
        before
    }
}

impl WindowRequests {
    /// Takes in what a table asked for: an export stays asked for, of the
    /// others the latest counts.
    pub fn add_table_output(&mut self, output: LinkedTableViewOutput)
        ensures
            *final(self) == (WindowRequests {
                export_csv: old(self).export_csv || output.actions.export_csv,
                selected_row: later(old(self).selected_row, output.selected_row),
                sort_column: later(old(self).sort_column, output.sort_column),
                page_size: later(old(self).page_size, output.page_size),
                page_index: later(old(self).page_index, output.page_index),
                ..*old(self)
            }),
    {
        self.export_csv = self.export_csv || output.actions.export_csv;
        if output.selected_row.is_some() {
            self.selected_row = output.selected_row;
        }
        if output.sort_column.is_some() {
            self.sort_column = output.sort_column;
        }
        if output.page_size.is_some() {
            self.page_size = output.page_size;
        }
        if output.page_index.is_some() {
            self.page_index = output.page_index;
        }
    }

    /// Takes in the buttons of a plot or an image.
    pub fn add_actions(&mut self, actions: HostViewUiActions)
        ensures
            *final(self) == (WindowRequests {
                clear: old(self).clear || actions.clear_requested,
                export_csv: old(self).export_csv || actions.export_csv,
                export_image: later(old(self).export_image, actions.export_image),
                ..*old(self)
            }),
    {
        self.clear = self.clear || actions.clear_requested;
        self.export_csv = self.export_csv || actions.export_csv;
        if actions.export_image.is_some() {
            self.export_image = actions.export_image;
        }
    }

    /// Hands out the requests; nothing is asked for any more.
    pub fn take(&mut self) -> (out: WindowRequests)
        ensures
            out == *old(self),
            *final(self) == no_requests(),
    {
        let mut out = WindowRequests::default();
        std::mem::swap(self, &mut out);
        out
    }
}

/// What is done with a view.
#[derive(Debug, Clone, Copy, PartialEq, Eq, Structural)]
pub enum ViewAction {
    Clear,
    ExportCsv,
    ExportImage(HostViewImageFormat),
}

/// What the buttons of a view ask for, in the order in which it is done.
pub open spec fn ordered_actions(actions: HostViewUiActions) -> Seq<ViewAction> {
    let first = if actions.clear_requested {
        seq![ViewAction::Clear]
    } else {
        seq![]
    };
    let second = if actions.export_csv {
        seq![ViewAction::ExportCsv]
    } else {
        seq![]
    };
    let third = match actions.export_image {
        Some(format) => seq![ViewAction::ExportImage(format)],
        None => seq![],
    };
    first + second + third
}

pub fn handle_host_view_actions(actions: HostViewUiActions) -> (out: Vec<ViewAction>)
    ensures
        out@ == ordered_actions(actions),
{
    let mut out: Vec<ViewAction> = Vec::new();
    if actions.clear_requested {
        out.push(ViewAction::Clear);
    }
    if actions.export_csv {
        out.push(ViewAction::ExportCsv);
    }
    if let Some(format) = actions.export_image {
        out.push(ViewAction::ExportImage(format));
    }
    assert(out@ =~= ordered_actions(actions));
    out
}

// ---------------------------------------------------------------------------
// Exports
// ---------------------------------------------------------------------------
/// A file to be written: the name that is offered for it, and its text.
#[derive(Debug)]
pub struct TextExport {
    pub default_name: String,
    pub text: String,
}

/// Why a view cannot be exported as CSV.
pub open spec fn csv_problem(
    model: RegistryModel,
    cache: TextMap<HostDatasetCacheEntry>,
    dataset_id: Seq<char>,
) -> Option<Seq<char>> {
    match find_id(model.datasets, dataset_id) {
        None => Some("dataset "@ + dataset_id + " is no longer available"@),
        Some(i) => if !(model.datasets[i].descriptor.kind is TableV1) {
            Some(
                model.datasets[i].descriptor.title@
                    + " is not a tabular dataset and cannot be exported as CSV"@,
            )
        } else {
            match cached(cache, dataset_id) {
                Some(entry) => match entry.snapshot {
                    Err(text) => Some(text@),
                    Ok(None) => Some("no dataset is available to export"@),
                    Ok(Some(snapshot)) => if snapshot is Table {
                        None
                    } else {
                        Some("cached dataset is not a table dataset"@)
                    },
                },
                None => Some("no dataset is available to export"@),
            }
        },
    }
}

/// The CSV file of a view.
pub fn export_host_view_csv(
    registry: &ResolvedHostViewRegistry,
    cache: &TextMap<HostDatasetCacheEntry>,
    view: &ResolvedHostView,
) -> (out: Result<TextExport, String>)
    ensures
        ({
            let id = view.descriptor.dataset_id@;
            match out {
                Ok(export) => {
                    let i = find_id(registry.model().datasets, id)->0;
                    let schema = registry.model().datasets[i].descriptor.kind->TableV1_0;
                    &&& csv_problem(registry.model(), *cache, id) is None
                    &&& export.default_name@ == title_stem(view.descriptor.title@) + ".csv"@
                    &&& cached(*cache, id) matches Some(entry) && entry.snapshot matches Ok(
                        Some(HostDatasetSnapshot::Table(table)),
                    ) && export.text@ == csv_text(schema.columns@, table)
                },
                Err(text) => csv_problem(registry.model(), *cache, id) == Some(text@),
            }
        }),
{
    let dataset = match registry.dataset(view.descriptor.dataset_id.as_str()) {
        Some(d) => d,
        None => {
            let mut text = "dataset ".to_owned();
            text.append(view.descriptor.dataset_id.as_str());
            text.append(" is no longer available");
            return Err(text);
        },
    };
    let schema = match &dataset.descriptor.kind {
        HostDatasetKind::TableV1(schema) => schema,
        _ => {
            let mut text = dataset.descriptor.title.clone();
            text.append(" is not a tabular dataset and cannot be exported as CSV");
            return Err(text);
        },
    };
    match cached_table(cache.get(view.descriptor.dataset_id.as_str())) {
        Ok(Some(table)) => {
            let mut default_name = sanitize_file_stem(view.descriptor.title.as_str());
            default_name.append(".csv");
            Ok(TextExport { default_name, text: table_csv(schema, table) })
        },
        Ok(None) => Err("no dataset is available to export".to_owned()),
        Err(text) => Err(text.to_owned()),
    }
}

/// The name that is offered for the image of a view.
pub fn image_export_name(title: &str, format: HostViewImageFormat) -> (out: String)
    ensures
        out@ == title_stem(title@) + "."@ + format.suffix(),
{
    let mut out = sanitize_file_stem(title);
    out.append(".");
    out.append(format.extension());
    out
}

/// The format of an image by the extension of its file's name, in whatever
/// case.
pub open spec fn format_of_name(name: Option<Seq<char>>) -> Option<HostViewImageFormat> {
    match name {
        Some(n) => match extension_of(n) {
            Some(extension) => {
                let lower = lower_text(extension);
                if lower == "png"@ {
                    Some(HostViewImageFormat::Png)
                } else if lower == "tif"@ || lower == "tiff"@ {
                    Some(HostViewImageFormat::Tiff)
                } else {
                    None
                }
            },
            None => None,
        },
        None => None,
    }
}

pub fn image_format_for(name: Option<&str>) -> (out: Result<HostViewImageFormat, String>)
    ensures
        match out {
            Ok(format) => format_of_name(crate::naming::optional_text(name)) == Some(format),
            Err(text) => format_of_name(crate::naming::optional_text(name)) is None && text@
                == "image export path must end in .png, .tif, or .tiff"@,
        },
{
    let extension = match name {
        Some(n) => replay_file_extension(n),
        None => None,
    };
    if let Some(text) = extension {
        if same_text(text.as_str(), "png") {
            return Ok(HostViewImageFormat::Png);
        }
        if same_text(text.as_str(), "tif") || same_text(text.as_str(), "tiff") {
            return Ok(HostViewImageFormat::Tiff);
        }
    }
    Err("image export path must end in .png, .tif, or .tiff".to_owned())
}

/// The name that is offered for an image leads to the format that was asked
/// for.
pub proof fn offered_name_keeps_the_format(title: Seq<char>, format: HostViewImageFormat)
    ensures
        format_of_name(Some(title_stem(title) + "."@ + format.suffix())) == Some(format),
{
    reveal_strlit("png");
    reveal_strlit("tif");
    reveal_strlit("tiff");
    crate::naming::title_stem_is_safe(title);
    let suffix = format.suffix();
    assert(!suffix.contains('.'));
    crate::naming::joined_name_splits(title_stem(title), suffix);
    assert(lower_text(suffix) =~= suffix);
    if format is Tiff {
        assert("tiff"@[0] != "png"@[0]);
    }
}

// ---------------------------------------------------------------------------
// Laws
// ---------------------------------------------------------------------------
/// Tables are shown as a card, a table, a density or a scatter plot, whichever
/// the view is for, images as images and series as lines. Nothing else is
/// shown.
pub proof fn views_show_the_content_they_are_for(view: HostViewKind, dataset: HostDatasetKind)
    ensures
        content_of(view, dataset) is SummaryCard <==> view is CompactTable && dataset is TableV1,
        content_of(view, dataset) is LinkedTable <==> view is TableWindow && dataset is TableV1,
        content_of(view, dataset) is Density <==> view is Density2dFromTable && dataset is TableV1,
        content_of(view, dataset) is Scatter <==> view is Scatter2dFromTable && dataset is TableV1,
        content_of(view, dataset) is Image <==> view is ImageWindow && dataset is Image2dV1,
        content_of(view, dataset) is Lines <==> view is LineSeriesWindow && dataset is Series1dV1,
        !(content_of(view, dataset) is Unavailable),
        has_window(content_of(view, dataset)) <==> !(view is CompactTable) && !(content_of(
            view,
            dataset,
        ) is Mismatch),
{
}

/// Cached data are shown exactly if they are of the kind that the content is
/// made of; a failure to load them is told in its own words.
pub proof fn data_of_another_kind_are_told(
    content: ViewContent,
    entry: HostDatasetCacheEntry,
    failure: String,
)
    ensures
        entry_problem(content, None) is None,
        entry.snapshot == Err::<Option<HostDatasetSnapshot>, String>(failure) ==> entry_problem(
            content,
            Some(entry),
        ) == Some(failure@) && window_problem(content, Some(entry)) == Some(failure@),
        entry.snapshot matches Ok(None) ==> entry_problem(content, Some(entry)) is None,
        entry.snapshot matches Ok(Some(HostDatasetSnapshot::Table(_))) ==> (entry_problem(
            content,
            Some(entry),
        ) is None <==> !(content is Image) && !(content is Lines)),
        entry.snapshot matches Ok(Some(HostDatasetSnapshot::Image2d(_))) ==> (entry_problem(
            content,
            Some(entry),
        ) is None <==> content is Image),
        entry.snapshot matches Ok(Some(HostDatasetSnapshot::Series1d(_))) ==> (entry_problem(
            content,
            Some(entry),
        ) is None <==> content is Lines),
        window_problem(content, Some(entry)) is Some ==> window_problem(content, Some(entry))
            == entry_problem(content, Some(entry)),
        window_problem(content, None) is None,
{
}

/// A window shows the generation of its data: of a table only where there is
/// one or a failure, and zero where nothing is there.
pub proof fn windows_show_the_generation_of_their_data(
    content: ViewContent,
    entry: HostDatasetCacheEntry,
)
    ensures
        window_generation(content, None) == 0,
        window_generation(content, Some(entry)) == entry.generation || window_generation(
            content,
            Some(entry),
        ) == 0,
        !(content is LinkedTable) ==> window_generation(content, Some(entry)) == entry.generation,
        entry_problem(content, Some(entry)) is None && !(entry.snapshot matches Ok(None))
            ==> window_generation(content, Some(entry)) == entry.generation,
        content is LinkedTable && (entry.snapshot matches Ok(None)) ==> window_generation(
            content,
            Some(entry),
        ) == 0,
{
}

/// What the buttons of a view ask for is done, and nothing else: clearing comes
/// first and the image last.
pub proof fn views_do_what_is_asked_for(actions: HostViewUiActions, format: HostViewImageFormat)
    ensures
        ordered_actions(actions).contains(ViewAction::Clear) <==> actions.clear_requested,
        ordered_actions(actions).contains(ViewAction::ExportCsv) <==> actions.export_csv,
        ordered_actions(actions).contains(ViewAction::ExportImage(format)) <==> actions.export_image
            == Some(format),
        actions.clear_requested ==> ordered_actions(actions)[0] is Clear,
        actions.export_image is Some ==> ordered_actions(actions).last() is ExportImage,
        ordered_actions(actions).len() == (if actions.clear_requested {
            1int
        } else {
            0
        }) + (if actions.export_csv {
            1int
        } else {
            0
        }) + (if actions.export_image is Some {
            1int
        } else {
            0
        }),
{
    let all = ordered_actions(actions);
    assert(all.len() > 0 ==> all.contains(all[0]));
    assert(all.len() > 1 ==> all.contains(all[1]));
    assert(all.len() > 2 ==> all.contains(all[2]));
}

/// A view can be exported as CSV exactly if a table of its dataset is loaded.
pub proof fn loaded_tables_can_be_exported(
    model: RegistryModel,
    cache: TextMap<HostDatasetCacheEntry>,
    dataset_id: Seq<char>,
)
    ensures
        csv_problem(model, cache, dataset_id) is None <==> table_of(model, cache, dataset_id)
            is Some,
{
}

/// A view of a dataset that is not registered is told so, and one that shows
/// loaded data of its kind has nothing to tell.
pub proof fn fitting_views_have_no_problem(
    model: RegistryModel,
    cache: TextMap<HostDatasetCacheEntry>,
    view: ResolvedHostView,
    d: int,
)
    requires
        0 <= d < model.datasets.len(),
        model.datasets[d].descriptor.id@ == view.descriptor.dataset_id@,
        forall|k: int|
            0 <= k < d ==> (#[trigger] model.datasets[k]).descriptor.id@
                != view.descriptor.dataset_id@,
    ensures
        registered_content(model, view) == content_of(
            view.descriptor.kind,
            model.datasets[d].descriptor.kind,
        ),
        view.descriptor.kind is ImageWindow && model.datasets[d].descriptor.kind is Image2dV1 && (
        cache.at(view.descriptor.dataset_id@) matches Some(entry) ==> (entry.snapshot matches Ok(
            Some(HostDatasetSnapshot::Image2d(_)),
        ))) ==> view_problem(model, cache, view) is None,
        view.descriptor.kind is TableWindow && model.datasets[d].descriptor.kind is TableV1 && (
        cache.at(view.descriptor.dataset_id@) matches Some(entry) ==> (entry.snapshot matches Ok(
            Some(HostDatasetSnapshot::Table(_)),
        ))) ==> view_problem(model, cache, view) is None,
        view.descriptor.kind is TableWindow && !(model.datasets[d].descriptor.kind is TableV1)
            ==> view_problem(model, cache, view) is Some,
{
    let id = view.descriptor.dataset_id@;
    find_id_is_first(model.datasets, id);
    assert(model.datasets[d].descriptor.id_view() == id);
    match find_id(model.datasets, id) {
        Some(i) => {
            assert(model.datasets[i].descriptor.id_view() == id);
            if d < i {
                assert(model.datasets[d].descriptor.id_view() != id);
            }
            if i < d {
                assert(model.datasets[i].descriptor.id@ != id);
            }
        },
        None => {},
    }
}

/// Of two requests the later one counts, and one that asks for nothing leaves
/// the earlier one.
pub proof fn later_requests_count<T>(before: Option<T>, after: Option<T>)
    ensures
        after is Some ==> later(before, after) == after,
        after is None ==> later(before, after) == before,
{
}

/// The full table of a dataset is its table window.
pub proof fn full_tables_are_table_windows(view: ResolvedHostView, dataset_id: Seq<char>)
    ensures
        is_full_table(view, dataset_id) ==> view.descriptor.dataset_id@ == dataset_id,
        is_full_table(view, dataset_id) ==> view.descriptor.kind is TableWindow,
        view.descriptor.kind is TableWindow ==> is_full_table(view, view.descriptor.dataset_id@),
{
}

/// A window is open once it was opened, and not before.
pub proof fn windows_are_open_once_opened(open: TextMap<bool>, view_id: Seq<char>)
    ensures
        open.at(view_id) is None ==> !is_open(open, view_id),
        open.at(view_id) matches Some(opened) ==> is_open(open, view_id) == opened,
        no_requests() == (WindowRequests {
            close: false,
            clear: false,
            export_csv: false,
            export_image: None,
            selected_row: None,
            sort_column: None,
            page_size: None,
            page_index: None,
        }),
{
}

} // verus!
