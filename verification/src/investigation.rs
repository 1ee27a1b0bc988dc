//! The state of an investigation: layout, selection, table pages and layers.
use crate::binary64::Real32;
use crate::host_data::{
    column_is_the_first_of_its_name, HostDatasetDescriptor, HostMarkerShape, TableColumnValues,
    TableDatasetV1, TableSchema,
};
use crate::inspection_3d::Position3;
use crate::ordered_set::OrderedSet;
use crate::rows::{
    comparable, in_listing_order, listed_before, number_at, rows_are_listed_by_their_values,
    rows_distinct, rows_in_roi, rows_in_roi_are_those_inside, rows_in_roi_increase,
    rows_matching_roi, sort_rows, AnalysisRoi, InvestigationSortDirection, StableRowKey,
};
use crate::text::{same_text, text_less, text_less_irreflexive, text_less_transitive};
use crate::text_map::TextMap;
use vstd::prelude::*;

verus! {

/// The colour of a layer that asks for none.
pub const DEFAULT_LAYER_COLOR: [u8; 4] = [244, 244, 244, 255];

/// The marker size of a layer that asks for none: the pattern of 3.
pub const DEFAULT_LAYER_SIZE_BITS: u32 = 0x4040_0000;

// ---------------------------------------------------------------------------
// Layout
// ---------------------------------------------------------------------------
#[derive(Debug, Clone, Copy, PartialEq, Eq, Structural)]
pub enum InvestigationLayout {
    Preview2dOnly,
    Split2d3d,
    Inspection3dOnly,
}

impl InvestigationLayout {
    pub fn label(self) -> (out: &'static str)
        ensures
            out@ == match self {
                InvestigationLayout::Preview2dOnly => "2D only"@,
                InvestigationLayout::Split2d3d => "Split 2D + 3D"@,
                InvestigationLayout::Inspection3dOnly => "3D only"@,
            },
    {
        match self {
            InvestigationLayout::Preview2dOnly => "2D only",
            InvestigationLayout::Split2d3d => "Split 2D + 3D",
            InvestigationLayout::Inspection3dOnly => "3D only",
        }
    }

    pub fn shows_2d(self) -> (out: bool)
        ensures
            out == (self != InvestigationLayout::Inspection3dOnly),
    {
        matches!(self, InvestigationLayout::Preview2dOnly | InvestigationLayout::Split2d3d)
    }

    pub fn shows_3d(self) -> (out: bool)
        ensures
            out == (self != InvestigationLayout::Preview2dOnly),
    {
        matches!(self, InvestigationLayout::Split2d3d | InvestigationLayout::Inspection3dOnly)
    }
}

impl Default for InvestigationLayout {
    fn default() -> (out: Self)
        ensures
            out == InvestigationLayout::Split2d3d,
    {
        InvestigationLayout::Split2d3d
    }
}

// ---------------------------------------------------------------------------
// Table pages
// ---------------------------------------------------------------------------
#[derive(Debug, Clone, Copy, PartialEq, Eq, Structural)]
pub enum TablePageSize {
    Rows25,
    Rows100,
    Rows500,
    All,
}

impl Default for TablePageSize {
    fn default() -> (out: Self)
        ensures
            out == TablePageSize::Rows100,
    {
        TablePageSize::Rows100
    }
}

impl TablePageSize {
    /// The page sizes in the order in which they are offered.
    pub const ALL: [TablePageSize; 4] = [
        TablePageSize::Rows25,
        TablePageSize::Rows100,
        TablePageSize::Rows500,
        TablePageSize::All,
    ];

    pub fn label(self) -> (out: &'static str)
        ensures
            out@ == match self {
                TablePageSize::Rows25 => "25"@,
                TablePageSize::Rows100 => "100"@,
                TablePageSize::Rows500 => "500"@,
                TablePageSize::All => "All"@,
            },
    {
        match self {
            TablePageSize::Rows25 => "25",
            TablePageSize::Rows100 => "100",
            TablePageSize::Rows500 => "500",
            TablePageSize::All => "All",
        }
    }

    /// How many rows a page of a table with `total` rows has.
    pub open spec fn per_page(self, total: int) -> int {
        match self {
            TablePageSize::Rows25 => 25,
            TablePageSize::Rows100 => 100,
            TablePageSize::Rows500 => 500,
            TablePageSize::All => if total < 1 {
                1
            } else {
                total
            },
        }
    }

    pub fn rows_per_page(self, total: usize) -> (out: usize)
        ensures
            out == self.per_page(total as int),
            out >= 1,
    {
        match self {
            TablePageSize::Rows25 => 25,
            TablePageSize::Rows100 => 100,
            TablePageSize::Rows500 => 500,
            TablePageSize::All => if total < 1 {
                1
            } else {
                total
            },
        }
    }
}

/// How one table is sorted and paged.
#[derive(Debug, Clone, PartialEq, Eq)]
pub struct InvestigationTableViewState {
    pub sort_column: Option<String>,
    pub sort_direction: InvestigationSortDirection,
    pub page_size: TablePageSize,
    pub page_index: usize,
}

impl Default for InvestigationTableViewState {
    fn default() -> (out: Self)
        ensures
            out == (InvestigationTableViewState {
                sort_column: None,
                sort_direction: InvestigationSortDirection::Ascending,
                page_size: TablePageSize::Rows100,
                page_index: 0,
            }),
    {
        InvestigationTableViewState {
            sort_column: None,
            sort_direction: InvestigationSortDirection::Ascending,
            page_size: TablePageSize::Rows100,
            page_index: 0,
        }
    }
}

/// The number of pages of `total` rows: at least one.
pub open spec fn pages(page_size: TablePageSize, total: int) -> int {
    let per_page = page_size.per_page(total);
    if total <= 0 {
        1
    } else {
        (total + per_page - 1) / per_page
    }
}

/// The rows `start..end` of a page.
pub open spec fn page_rows(page_size: TablePageSize, page: int, total: int) -> (int, int) {
    let per_page = page_size.per_page(total);
    let start = page * per_page;
    (
        start,
        if start + per_page < total {
            start + per_page
        } else {
            total
        },
    )
}

impl InvestigationTableViewState {
    /// Whether the table is sorted by this column.
    pub open spec fn sorted_by(self, column_id: Seq<char>) -> bool {
        self.sort_column matches Some(column) && column@ == column_id
    }

    pub fn copied(&self) -> (out: Self)
        ensures
            out == *self,
    {
        InvestigationTableViewState {
            sort_column: match &self.sort_column {
                Some(column) => Some(column.clone()),
                None => None,
            },
            sort_direction: self.sort_direction,
            page_size: self.page_size,
            page_index: self.page_index,
        }
    }

    /// Sorts by a column, or flips the direction where the table is sorted by
    /// it, and goes back to the first page.
    pub fn toggle_sort(&mut self, column_id: &str)
        ensures
            final(self).sorted_by(column_id@),
            final(self).sort_direction == if old(self).sorted_by(column_id@) {
                old(self).sort_direction.flipped()
            } else {
                InvestigationSortDirection::Ascending
            },
            final(self).page_size == old(self).page_size,
            final(self).page_index == 0,
    {
        let sorted = match &self.sort_column {
            Some(column) => same_text(column.as_str(), column_id),
            None => false,
        };
        if sorted {
            self.sort_direction = self.sort_direction.toggled();
        } else {
            self.sort_column = Some(column_id.to_owned());
            self.sort_direction = InvestigationSortDirection::Ascending;
        }
        self.page_index = 0;
    }

    pub fn page_count(&self, total_rows: usize) -> (out: usize)
        ensures
            out == pages(self.page_size, total_rows as int),
            out >= 1,
    {
        if total_rows == 0 {
            return 1;
        }
        let per_page: usize = self.page_size.rows_per_page(total_rows);
        let full: usize = total_rows / per_page;
        proof {
            ceiling_division(total_rows as int, per_page as int);
        }
        if total_rows % per_page == 0 {
            full
        } else {
            full + 1
        }
    }

    /// Goes to the last page where the page does not exist.
    pub fn clamp_page(&mut self, total_rows: usize)
        ensures
            final(self).page_index == if old(self).page_index < pages(
                old(self).page_size,
                total_rows as int,
            ) {
                old(self).page_index as int
            } else {
                pages(old(self).page_size, total_rows as int) - 1
            },
            final(self).sort_column == old(self).sort_column,
            final(self).sort_direction == old(self).sort_direction,
            final(self).page_size == old(self).page_size,
    {
        let max_index: usize = self.page_count(total_rows) - 1;
        if self.page_index > max_index {
            self.page_index = max_index;
        }
    }

    /// The rows `start..end` of the page.
    pub fn visible_slice(&self, total_rows: usize) -> (out: (usize, usize))
        requires
            (self.page_index + 1) * self.page_size.per_page(total_rows as int) <= usize::MAX,
        ensures
            (out.0 as int, out.1 as int) == page_rows(
                self.page_size,
                self.page_index as int,
                total_rows as int,
            ),
    {
        let per_page: usize = self.page_size.rows_per_page(total_rows);
        assert(self.page_index * per_page + per_page == (self.page_index + 1) * per_page)
            by (nonlinear_arith);
        assert(self.page_index * per_page >= 0) by (nonlinear_arith);
        let start: usize = self.page_index * per_page;
        let end: usize = if start + per_page < total_rows {
            start + per_page
        } else {
            total_rows
        };
        (start, end)
    }
}

proof fn ceiling_division(total: int, per_page: int)
    requires
        total > 0,
        per_page > 0,
    ensures
        (total + per_page - 1) / per_page == total / per_page + (if total % per_page == 0 {
            0int
        } else {
            1
        }),
        0 <= total / per_page <= total,
        total / per_page == 0 ==> total % per_page != 0,
        total % per_page != 0 ==> total / per_page < total,
{
    let q = total / per_page;
    let r = total % per_page;
    vstd::arithmetic::div_mod::lemma_fundamental_div_mod(total, per_page);
    assert(0 <= q <= total) by (nonlinear_arith)
        requires
            total == per_page * q + r,
            0 <= r < per_page,
            total > 0,
            per_page > 0,
    ;
    if r == 0 {
        vstd::arithmetic::div_mod::lemma_fundamental_div_mod_converse(
            total + per_page - 1,
            per_page,
            q,
            per_page - 1,
        );
        assert(q != 0) by (nonlinear_arith)
            requires
                total == per_page * q,
                total > 0,
        ;
    } else {
        assert(total + per_page - 1 == per_page * (q + 1) + (r - 1)) by (nonlinear_arith)
            requires
                total == per_page * q + r,
        ;
        vstd::arithmetic::div_mod::lemma_fundamental_div_mod_converse(
            total + per_page - 1,
            per_page,
            q + 1,
            r - 1,
        );
        assert(q < total) by (nonlinear_arith)
            requires
                total == per_page * q + r,
                0 < r < per_page,
                q >= 0,
        ;
    }
}

/// The pages of a table cover its rows one after the other: the first page
/// starts at the first row, every page but the last ends where the next one
/// starts, the last one ends at the last row, and none is empty.
pub proof fn pages_cover_all_rows(page_size: TablePageSize, total: int, page: int)
    requires
        total > 0,
        0 <= page < pages(page_size, total),
    ensures
        page_rows(page_size, 0, total).0 == 0,
        page_rows(page_size, page, total).0 < page_rows(page_size, page, total).1 <= total,
        page + 1 < pages(page_size, total) ==> page_rows(page_size, page, total).1 == page_rows(
            page_size,
            page + 1,
            total,
        ).0,
        page + 1 == pages(page_size, total) ==> page_rows(page_size, page, total).1 == total,
{
    let per_page = page_size.per_page(total);
    let count = pages(page_size, total);
    ceiling_division(total, per_page);
    vstd::arithmetic::div_mod::lemma_fundamental_div_mod(total, per_page);
    let q = total / per_page;
    let r = total % per_page;
    assert(page * per_page < total) by (nonlinear_arith)
        requires
            total == per_page * q + r,
            0 <= r < per_page,
            page <= (if r == 0 {
                q - 1
            } else {
                q
            }),
            r == 0 ==> q >= 1,
            total > 0,
    ;
    assert((page + 1) * per_page == page * per_page + per_page) by (nonlinear_arith);
    if page + 1 < count {
        assert((page + 1) * per_page <= total) by (nonlinear_arith)
            requires
                total == per_page * q + r,
                0 <= r < per_page,
                page + 1 <= q,
        ;
    } else {
        assert((page + 1) * per_page >= total) by (nonlinear_arith)
            requires
                total == per_page * q + r,
                0 <= r < per_page,
                page + 1 == (if r == 0 {
                    q
                } else {
                    q + 1
                }),
        ;
    }
    assert(0 * per_page == 0) by (nonlinear_arith);
}

/// Whatever the page was, after clamping it exists, so that its rows can be
/// shown.
pub proof fn clamped_page_exists(page_size: TablePageSize, page: int, total: int)
    requires
        page >= 0,
        total >= 0,
    ensures
        ({
            let clamped = if page < pages(page_size, total) {
                page
            } else {
                pages(page_size, total) - 1
            };
            &&& 0 <= clamped < pages(page_size, total)
            &&& page_rows(page_size, clamped, total).0 <= page_rows(
                page_size,
                clamped,
                total,
            ).1 <= total
        }),
{
    let clamped = if page < pages(page_size, total) {
        page
    } else {
        pages(page_size, total) - 1
    };
    if total > 0 {
        ceiling_division(total, page_size.per_page(total));
        pages_cover_all_rows(page_size, total, clamped);
    } else {
        assert(0 * page_size.per_page(total) == 0) by (nonlinear_arith);
    }
}

// ---------------------------------------------------------------------------
// Layers
// ---------------------------------------------------------------------------
#[derive(Debug, Clone)]
pub struct InvestigationLayerStyle {
    pub title: String,
    pub visible: bool,
    pub color: [u8; 4],
    pub marker_shape: HostMarkerShape,
    pub size: Real32,
}

impl InvestigationLayerStyle {
    pub fn copied(&self) -> (out: Self)
        ensures
            out == *self,
    {
        InvestigationLayerStyle {
            title: self.title.clone(),
            visible: self.visible,
            color: self.color,
            marker_shape: self.marker_shape,
            size: self.size,
        }
    }

    /// The style that a dataset asks for, with defaults where it asks for
    /// nothing. The title comes from the display, else from the schema, else
    /// from the dataset.
    pub fn from_dataset(
        descriptor: &HostDatasetDescriptor,
        schema: Option<&TableSchema>,
    ) -> (out: Self)
        ensures
            out == default_style(
                *descriptor,
                match schema {
                    Some(s) => Some(*s),
                    None => None,
                },
            ),
    {
        let display = &descriptor.display;
        let layer_title = match display {
            Some(display) => match &display.layer_title {
                Some(title) => Some(title.clone()),
                None => None,
            },
            None => None,
        };
        let semantic = match schema {
            Some(schema) => match &schema.semantic_label {
                Some(label) => Some(label.clone()),
                None => None,
            },
            None => None,
        };
        let title = match layer_title {
            Some(title) => title,
            None => match semantic {
                Some(label) => label,
                None => descriptor.title.clone(),
            },
        };
        match display {
            Some(display) => InvestigationLayerStyle {
                title,
                visible: match display.default_visibility {
                    Some(visible) => visible,
                    None => true,
                },
                color: match display.default_color {
                    Some(color) => color,
                    None => DEFAULT_LAYER_COLOR,
                },
                marker_shape: match display.default_marker_shape {
                    Some(shape) => shape,
                    None => HostMarkerShape::Circle,
                },
                size: match display.default_size {
                    Some(size) => size,
                    None => Real32 { bits: DEFAULT_LAYER_SIZE_BITS },
                },
            },
            None => InvestigationLayerStyle {
                title,
                visible: true,
                color: DEFAULT_LAYER_COLOR,
                marker_shape: HostMarkerShape::Circle,
                size: Real32 { bits: DEFAULT_LAYER_SIZE_BITS },
            },
        }
    }
}

/// An option or a default.
pub open spec fn or_default<T>(option: Option<T>, default: T) -> T {
    match option {
        Some(value) => value,
        None => default,
    }
}

/// The style that a dataset asks for.
pub open spec fn default_style(
    descriptor: HostDatasetDescriptor,
    schema: Option<TableSchema>,
) -> InvestigationLayerStyle {
    let semantic = match schema {
        Some(schema) => or_default(schema.semantic_label, descriptor.title),
        None => descriptor.title,
    };
    match descriptor.display {
        Some(display) => InvestigationLayerStyle {
            title: or_default(display.layer_title, semantic),
            visible: or_default(display.default_visibility, true),
            color: or_default(display.default_color, DEFAULT_LAYER_COLOR),
            marker_shape: or_default(display.default_marker_shape, HostMarkerShape::Circle),
            size: or_default(display.default_size, Real32 { bits: DEFAULT_LAYER_SIZE_BITS }),
        },
        None => InvestigationLayerStyle {
            title: semantic,
            visible: true,
            color: DEFAULT_LAYER_COLOR,
            marker_shape: HostMarkerShape::Circle,
            size: Real32 { bits: DEFAULT_LAYER_SIZE_BITS },
        },
    }
}

/// The layer that a dataset belongs to.
pub open spec fn layer_of(
    descriptor: HostDatasetDescriptor,
    schema: Option<TableSchema>,
) -> Seq<char> {
    match schema {
        Some(schema) => match schema.layer_id {
            Some(id) => id@,
            None => descriptor.id@,
        },
        None => descriptor.id@,
    }
}

pub fn dataset_layer_id(
    descriptor: &HostDatasetDescriptor,
    schema: Option<&TableSchema>,
) -> (out: String)
    ensures
        out@ == layer_of(
            *descriptor,
            match schema {
                Some(s) => Some(*s),
                None => None,
            },
        ),
{
    match schema {
        Some(schema) => match &schema.layer_id {
            Some(id) => id.clone(),
            None => descriptor.id.clone(),
        },
        None => descriptor.id.clone(),
    }
}

// ---------------------------------------------------------------------------
// State
// ---------------------------------------------------------------------------
#[derive(Debug, Clone)]
pub struct InvestigationState {
    pub layout: InvestigationLayout,
    /// The share of the width that the left one of two panes gets.
    pub split_ratio: Real32,
    pub active_analysis_roi: Option<AnalysisRoi>,
    pub selected_rows: OrderedSet<StableRowKey>,
    pub hovered_row: Option<StableRowKey>,
    pub focused_layers: OrderedSet<String>,
    pub link_roi_between_2d_and_3d: bool,
    /// The point that the camera was turned to last.
    pub camera_focus_target: Option<Position3>,
    pub table_views: TextMap<InvestigationTableViewState>,
    pub layer_visibility: TextMap<bool>,
    pub layer_styles: TextMap<InvestigationLayerStyle>,
}

/// How two panes share the width at first: 0.56.
pub const FIRST_SPLIT_BITS: u32 = 0x3f0f_5c29;

impl Default for InvestigationState {
    fn default() -> (out: Self)
        ensures
            out.wf(),
            out.layout == InvestigationLayout::Split2d3d,
            out.split_ratio.bits == FIRST_SPLIT_BITS,
            out.camera_focus_target is None,
            out.active_analysis_roi is None,
            out.selected_rows.items() == Seq::<StableRowKey>::empty(),
            out.hovered_row is None,
            out.focused_layers.items() == Seq::<String>::empty(),
            out.link_roi_between_2d_and_3d,
            out.table_views.entries().len() == 0,
            out.layer_visibility.entries().len() == 0,
            out.layer_styles.entries().len() == 0,
    {
        InvestigationState {
            layout: InvestigationLayout::Split2d3d,
            split_ratio: Real32 { bits: FIRST_SPLIT_BITS },
            active_analysis_roi: None,
            selected_rows: OrderedSet::new(),
            hovered_row: None,
            focused_layers: OrderedSet::new(),
            link_roi_between_2d_and_3d: true,
            camera_focus_target: None,
            table_views: TextMap::new(),
            layer_visibility: TextMap::new(),
            layer_styles: TextMap::new(),
        }
    }
}

/// Everything but the selection is as it was.
pub open spec fn same_but_selection(a: InvestigationState, b: InvestigationState) -> bool {
    &&& a.layout == b.layout
    &&& a.split_ratio == b.split_ratio
    &&& a.camera_focus_target == b.camera_focus_target
    &&& a.active_analysis_roi == b.active_analysis_roi
    &&& a.hovered_row == b.hovered_row
    &&& a.focused_layers == b.focused_layers
    &&& a.link_roi_between_2d_and_3d == b.link_roi_between_2d_and_3d
    &&& a.table_views == b.table_views
    &&& a.layer_visibility == b.layer_visibility
    &&& a.layer_styles == b.layer_styles
}

/// Everything but the layers is as it was.
pub open spec fn same_but_layers(a: InvestigationState, b: InvestigationState) -> bool {
    &&& a.layout == b.layout
    &&& a.split_ratio == b.split_ratio
    &&& a.camera_focus_target == b.camera_focus_target
    &&& a.active_analysis_roi == b.active_analysis_roi
    &&& a.selected_rows == b.selected_rows
    &&& a.hovered_row == b.hovered_row
    &&& a.link_roi_between_2d_and_3d == b.link_roi_between_2d_and_3d
    &&& a.table_views == b.table_views
}

impl InvestigationState {
    /// The sets are in order and no key of a map stands twice.
    pub open spec fn wf(&self) -> bool {
        &&& self.selected_rows.wf()
        &&& self.focused_layers.wf()
        &&& self.table_views.wf()
        &&& self.layer_visibility.wf()
        &&& self.layer_styles.wf()
    }

    /// The first of the selected rows.
    pub fn primary_selection(&self) -> (out: Option<&StableRowKey>)
        ensures
            match out {
                Some(key) => self.selected_rows.items().len() > 0 && *key
                    == self.selected_rows.items()[0],
                None => self.selected_rows.items().len() == 0,
            },
    {
        self.selected_rows.first()
    }

    /// Selects one row and nothing else.
    pub fn set_single_selection(&mut self, key: StableRowKey)
        requires
            old(self).wf(),
        ensures
            final(self).wf(),
            final(self).selected_rows.keys() == seq![key.pair()],
            same_but_selection(*final(self), *old(self)),
    {
        let ghost pair = key.pair();
        self.selected_rows.clear();
        assert(!self.selected_rows.holds(pair));
        self.selected_rows.insert(key);
        proof {
            let keys = self.selected_rows.keys();
            assert(keys.len() == 1);
            assert(self.selected_rows.holds(pair));
            assert(keys =~= seq![pair]);
        }
    }

    pub fn clear_selection(&mut self)
        requires
            old(self).wf(),
        ensures
            final(self).wf(),
            final(self).selected_rows.items() == Seq::<StableRowKey>::empty(),
            same_but_selection(*final(self), *old(self)),
    {
        self.selected_rows.clear();
    }

    /// The paging of a dataset's table, to be changed in place.
    pub fn table_view_state_mut(&mut self, dataset_id: &str) -> (out:
        &mut InvestigationTableViewState)
        requires
            old(self).wf(),
        ensures
            match old(self).table_views.at(dataset_id@) {
                Some(state) => *out == state,
                None => *out == (InvestigationTableViewState {
                    sort_column: None,
                    sort_direction: InvestigationSortDirection::Ascending,
                    page_size: TablePageSize::Rows100,
                    page_index: 0,
                }),
            },
            final(self).wf(),
            final(self).table_views.at(dataset_id@) == Some(*final(out)),
            forall|id: Seq<char>|
                id != dataset_id@ ==> #[trigger] final(self).table_views.at(id) == old(
                    self,
                ).table_views.at(id),
            final(self).layout == old(self).layout,
            final(self).split_ratio == old(self).split_ratio,
            final(self).camera_focus_target == old(self).camera_focus_target,
            final(self).active_analysis_roi == old(self).active_analysis_roi,
            final(self).selected_rows == old(self).selected_rows,
            final(self).hovered_row == old(self).hovered_row,
            final(self).focused_layers == old(self).focused_layers,
            final(self).link_roi_between_2d_and_3d == old(self).link_roi_between_2d_and_3d,
            final(self).layer_visibility == old(self).layer_visibility,
            final(self).layer_styles == old(self).layer_styles,
    {
        self.table_views.entry_or(dataset_id, InvestigationTableViewState::default())
    }

    /// Whether a layer is shown: as it was set, or as the fallback says.
    pub open spec fn shown(&self, layer_id: Seq<char>, fallback: bool) -> bool {
        or_default(self.layer_visibility.at(layer_id), fallback)
    }

    pub fn layer_visible(&self, layer_id: &str, fallback: bool) -> (out: bool)
        ensures
            out == self.shown(layer_id@, fallback),
    {
        match self.layer_visibility.get(layer_id) {
            Some(visible) => *visible,
            None => fallback,
        }
    }

    pub fn set_layer_visible(&mut self, layer_id: String, visible: bool)
        requires
            old(self).wf(),
        ensures
            final(self).wf(),
            same_but_layers(*final(self), *old(self)),
            final(self).focused_layers == old(self).focused_layers,
            final(self).layer_styles == old(self).layer_styles,
            final(self).layer_visibility.at(layer_id@) == Some(visible),
            forall|id: Seq<char>|
                id != layer_id@ ==> #[trigger] final(self).layer_visibility.at(id) == old(
                    self,
                ).layer_visibility.at(id),
    {
        self.layer_visibility.insert(layer_id, visible);
    }

    /// Shows one layer and hides every other layer that has a style.
    pub fn isolate_layer(&mut self, layer_id: &str)
        requires
            old(self).wf(),
        ensures
            final(self).wf(),
            same_but_layers(*final(self), *old(self)),
            final(self).layer_styles == old(self).layer_styles,
            final(self).focused_layers.keys() == seq![layer_id@],
            forall|id: Seq<char>| #[trigger]
                final(self).layer_visibility.at(id) == (if old(self).layer_styles.at(id) is Some {
                    Some(id == layer_id@)
                } else {
                    old(self).layer_visibility.at(id)
                }),
    {
        let ghost before = *self;
        self.focused_layers.clear();
        let name = layer_id.to_owned();
        self.focused_layers.insert(name);
        proof {
            let keys = self.focused_layers.keys();
            assert(self.focused_layers.holds(layer_id@));
            assert(keys =~= seq![layer_id@]);
        }
        let mut i: usize = 0;
        while i < self.layer_styles.len()
            invariant
                self.wf(),
                same_but_layers(*self, before),
                self.layer_styles == before.layer_styles,
                self.focused_layers.keys() == seq![layer_id@],
                i <= self.layer_styles.entries().len(),
                forall|id: Seq<char>| #[trigger]
                    self.layer_visibility.at(id) == (if stands_before(
                        before.layer_styles.entries(),
                        i as int,
                        id,
                    ) {
                        Some(id == layer_id@)
                    } else {
                        before.layer_visibility.at(id)
                    }),
            decreases self.layer_styles.entries().len() - i,
        {
            let ghost entries = before.layer_styles.entries();
            let candidate = self.layer_styles.key_at(i).clone();
            let focused = same_text(candidate.as_str(), layer_id);
            let ghost previous = *self;
            self.set_layer_visible(candidate, focused);
            proof {
                assert forall|id: Seq<char>| #[trigger]
                    self.layer_visibility.at(id) == (if stands_before(entries, i + 1, id) {
                    Some(id == layer_id@)
                } else {
                    before.layer_visibility.at(id)
                }) by {
                    if id == entries[i as int].0@ {
                        assert(stands_before(entries, i + 1, id));
                    } else {
                        assert(self.layer_visibility.at(id) == previous.layer_visibility.at(id));
                        if stands_before(entries, i + 1, id) {
                            let k = choose|k: int| 0 <= k < i + 1 && entries[k].0@ == id;
                            assert(entries[k].0@ == id && k < i);
                            assert(stands_before(entries, i as int, id));
                        }
                        if stands_before(entries, i as int, id) {
                            let k = choose|k: int| 0 <= k < i && entries[k].0@ == id;
                            assert(entries[k].0@ == id);
                        }
                    }
                }
            }
            i = i + 1;
        }
        proof {
            let entries = before.layer_styles.entries();
            assert forall|id: Seq<char>| #[trigger]
                self.layer_visibility.at(id) == (if before.layer_styles.at(id) is Some {
                Some(id == layer_id@)
            } else {
                before.layer_visibility.at(id)
            }) by {
                lookup_present(entries, id);
            }
        }
    }

    /// Gives a layer the style that the host decides, but keeps whether the
    /// user shows it.
    pub fn upsert_authoritative_layer(&mut self, layer_id: String, style: InvestigationLayerStyle)
        requires
            old(self).wf(),
        ensures
            final(self).wf(),
            same_but_layers(*final(self), *old(self)),
            final(self).focused_layers == old(self).focused_layers,
            final(self).layer_visibility == old(self).layer_visibility,
            final(self).layer_styles.at(layer_id@) == Some(
                InvestigationLayerStyle {
                    visible: match old(self).layer_styles.at(layer_id@) {
                        Some(existing) => existing.visible,
                        None => style.visible,
                    },
                    ..style
                },
            ),
            forall|id: Seq<char>|
                id != layer_id@ ==> #[trigger] final(self).layer_styles.at(id) == old(
                    self,
                ).layer_styles.at(id),
    {
        let mut style = style;
        if let Some(existing) = self.layer_styles.get(layer_id.as_str()) {
            style.visible = existing.visible;
        }
        self.layer_styles.insert(layer_id, style);
    }

    /// Makes sure that the layer of a dataset has a style and a visibility,
    /// and gives its id. What is there already stays.
    pub fn sync_dataset_layer(
        &mut self,
        descriptor: &HostDatasetDescriptor,
        schema: Option<&TableSchema>,
    ) -> (out: String)
        requires
            old(self).wf(),
        ensures
            final(self).wf(),
            same_but_layers(*final(self), *old(self)),
            final(self).focused_layers == old(self).focused_layers,
            ({
                let schema_value = match schema {
                    Some(s) => Some(*s),
                    None => None,
                };
                let id = layer_of(*descriptor, schema_value);
                let style = or_default(
                    old(self).layer_styles.at(id),
                    default_style(*descriptor, schema_value),
                );
                &&& out@ == id
                &&& final(self).layer_styles.at(id) == Some(style)
                &&& final(self).layer_visibility.at(id) == Some(
                    or_default(old(self).layer_visibility.at(id), style.visible),
                )
                &&& forall|other: Seq<char>|
                    other != id ==> #[trigger] final(self).layer_styles.at(other) == old(
                        self,
                    ).layer_styles.at(other)
                &&& forall|other: Seq<char>|
                    other != id ==> #[trigger] final(self).layer_visibility.at(other) == old(
                        self,
                    ).layer_visibility.at(other)
            }),
    {
        let layer_id = dataset_layer_id(descriptor, schema);
        let known = self.layer_styles.get(layer_id.as_str()).is_some();
        if !known {
            let style = InvestigationLayerStyle::from_dataset(descriptor, schema);
            self.layer_styles.insert(layer_id.clone(), style);
        }
        let visible = match self.layer_styles.get(layer_id.as_str()) {
            Some(style) => style.visible,
            None => true,
        };
        let placed = self.layer_visibility.get(layer_id.as_str()).is_some();
        if !placed {
            self.layer_visibility.insert(layer_id.clone(), visible);
        }
        layer_id
    }
}

/// Whether a key stands among the first `n` entries.
pub open spec fn stands_before<V>(entries: Seq<(String, V)>, n: int, key: Seq<char>) -> bool {
    exists|k: int| 0 <= k < n && (#[trigger] entries[k]).0@ == key
}

pub proof fn lookup_present<V>(entries: Seq<(String, V)>, key: Seq<char>)
    ensures
        crate::text_map::lookup(entries, key) is Some <==> stands_before(
            entries,
            entries.len() as int,
            key,
        ),
    decreases entries.len(),
{
    if entries.len() > 0 {
        let rest = entries.drop_first();
        lookup_present(rest, key);
        if entries[0].0@ == key {
            assert(stands_before(entries, entries.len() as int, key));
        } else {
            if stands_before(rest, rest.len() as int, key) {
                let k = choose|k: int| 0 <= k < rest.len() && (#[trigger] rest[k]).0@ == key;
                assert(entries[k + 1].0@ == key);
            }
            if stands_before(entries, entries.len() as int, key) {
                let k = choose|k: int| 0 <= k < entries.len() && (#[trigger] entries[k]).0@ == key;
                assert(rest[k - 1].0@ == key);
            }
        }
    }
}

/// Whether `rows` are the rows of a table that the linked views show: those
/// inside the active region, sorted as the table is.
pub open spec fn linked_rows(
    state: InvestigationState,
    dataset_id: Seq<char>,
    schema: TableSchema,
    dataset: TableDatasetV1,
    rows: Seq<usize>,
) -> bool {
    let inside = rows_in_roi(state.active_analysis_roi, schema, dataset, dataset.rows as nat);
    match sort_of(state, dataset_id, dataset) {
        None => rows == inside,
        Some((values, direction)) => {
            &&& rows.to_multiset() == inside.to_multiset()
            &&& comparable(values) ==> in_listing_order(values, direction, rows)
        },
    }
}

/// The rows of a table that the linked views show.
pub fn filtered_row_indices(
    state: &InvestigationState,
    dataset_id: &str,
    schema: &TableSchema,
    dataset: &TableDatasetV1,
) -> (out: Vec<usize>)
    ensures
        linked_rows(*state, dataset_id@, *schema, *dataset, out@),
{
    let rows = rows_matching_roi(state.active_analysis_roi.as_ref(), schema, dataset);
    proof {
        rows_in_roi_increase(state.active_analysis_roi, *schema, *dataset, dataset.rows as nat);
        assert(rows_distinct(rows@));
    }
    if let Some(table_state) = state.table_views.get(dataset_id) {
        if let Some(column_id) = &table_state.sort_column {
            if let Some(column) = dataset.column(column_id.as_str()) {
                return sort_rows(&column.values, table_state.sort_direction, rows);
            }
        }
    }
    rows
}

/// By which cells and in which direction a table is sorted, if it is.
pub open spec fn sort_of(
    state: InvestigationState,
    dataset_id: Seq<char>,
    dataset: TableDatasetV1,
) -> Option<(crate::host_data::TableColumnValues, InvestigationSortDirection)> {
    match state.table_views.at(dataset_id) {
        Some(table_state) => match table_state.sort_column {
            Some(column_id) => match dataset.named(column_id@) {
                Some(column) => Some((column.values, table_state.sort_direction)),
                None => None,
            },
            None => None,
        },
        None => None,
    }
}

/// The linked rows of a table are its rows inside the active region, rows
/// without a place in the plane included, and each stands once in the list.
pub proof fn linked_rows_are_those_of_the_region(
    state: InvestigationState,
    dataset_id: Seq<char>,
    schema: TableSchema,
    dataset: TableDatasetV1,
    rows: Seq<usize>,
    row: usize,
)
    requires
        linked_rows(state, dataset_id, schema, dataset, rows),
    ensures
        rows.contains(row) <==> row < dataset.rows && (state.active_analysis_roi matches Some(area)
            ==> (schema.coordinate_space_2d matches Some(space) ==> ({
            let x = number_at(dataset, space.x_column@, row as int);
            let y = number_at(dataset, space.y_column@, row as int);
            x is Some && y is Some ==> area.x_min.le(x->0) && x->0.le(area.x_max) && area.y_min.le(
                y->0,
            ) && y->0.le(area.y_max)
        }))),
        rows.no_duplicates(),
{
    let inside = rows_in_roi(state.active_analysis_roi, schema, dataset, dataset.rows as nat);
    rows_in_roi_increase(state.active_analysis_roi, schema, dataset, dataset.rows as nat);
    rows_in_roi_are_those_inside(
        state.active_analysis_roi,
        schema,
        dataset,
        dataset.rows as nat,
        row,
    );
    assert(rows.to_multiset() == inside.to_multiset());
    broadcast use vstd::seq_lib::group_to_multiset_ensures;
    assert(rows.contains(row) <==> rows.to_multiset().count(row) > 0);
    assert(inside.contains(row) <==> inside.to_multiset().count(row) > 0);
    assert(inside.no_duplicates());
    inside.lemma_multiset_has_no_duplicates();
    rows.lemma_multiset_has_no_duplicates_conv();
}

/// Where the user sorts a table by a column, the linked rows stand by what the
/// cells of that column hold: the lower cell first in ascending order, the
/// higher one first in descending order. Where no column of the table is named,
/// they stand as they do in the table.
pub proof fn linked_rows_are_sorted_by_the_named_column(
    state: InvestigationState,
    dataset_id: Seq<char>,
    schema: TableSchema,
    dataset: TableDatasetV1,
    rows: Seq<usize>,
    c: int,
    i: int,
    j: int,
)
    requires
        linked_rows(state, dataset_id, schema, dataset, rows),
        state.table_views.at(dataset_id) matches Some(table) && table.sort_column matches Some(
            name,
        ) && 0 <= c < dataset.columns@.len() && dataset.columns@[c].column_id@ == name@
            && forall|k: int| 0 <= k < c ==> (#[trigger] dataset.columns@[k]).column_id@ != name@,
        0 <= i < j < rows.len(),
    ensures
        ({
            let ascending = state.table_views.at(dataset_id)->0.sort_direction is Ascending;
            let a = rows[i] as int;
            let b = rows[j] as int;
            match dataset.columns@[c].values {
                TableColumnValues::U64(v) => a < v@.len() && b < v@.len() ==> if ascending {
                    v@[a] <= v@[b]
                } else {
                    v@[a] >= v@[b]
                },
                TableColumnValues::I64(v) => a < v@.len() && b < v@.len() ==> if ascending {
                    v@[a] <= v@[b]
                } else {
                    v@[a] >= v@[b]
                },
                TableColumnValues::F64(v) => a < v@.len() && b < v@.len() && (forall|k: int|
                    0 <= k < v@.len() ==> !(#[trigger] v@[k]).value.is_nan()) ==> if ascending {
                    v@[a].value.le(v@[b].value)
                } else {
                    v@[b].value.le(v@[a].value)
                },
                TableColumnValues::String(v) => a < v@.len() && b < v@.len() ==> if ascending {
                    !text_less(v@[b]@, v@[a]@)
                } else {
                    !text_less(v@[a]@, v@[b]@)
                },
                TableColumnValues::Bool(v) => a < v@.len() && b < v@.len() ==> if ascending {
                    v@[a] ==> v@[b]
                } else {
                    v@[b] ==> v@[a]
                },
            }
        }),
{
    let table = state.table_views.at(dataset_id)->0;
    let name = table.sort_column->0@;
    column_is_the_first_of_its_name(dataset.columns@, name);
    assert(dataset.named(name) == Some(dataset.columns@[c]));
    let values = dataset.columns@[c].values;
    let direction = table.sort_direction;
    if comparable(values) {
        assert(listed_before(values, direction, rows[i] as int, rows[j] as int));
        match direction {
            InvestigationSortDirection::Ascending => rows_are_listed_by_their_values(
                values,
                direction,
                rows,
                i,
                j,
                rows[i] as int,
                rows[j] as int,
            ),
            InvestigationSortDirection::Descending => rows_are_listed_by_their_values(
                values,
                direction,
                rows,
                i,
                j,
                rows[j] as int,
                rows[i] as int,
            ),
        }
        if let TableColumnValues::String(v) = values {
            let a = rows[i] as int;
            let b = rows[j] as int;
            if a < v@.len() && b < v@.len() {
                text_less_irreflexive(v@[a]@);
                if text_less(v@[a]@, v@[b]@) && text_less(v@[b]@, v@[a]@) {
                    text_less_transitive(v@[a]@, v@[b]@, v@[a]@);
                }
            }
        }
    }
}

/// A table that is not sorted is listed from its first row on.
pub proof fn unsorted_rows_keep_the_order_of_the_table(
    state: InvestigationState,
    dataset_id: Seq<char>,
    schema: TableSchema,
    dataset: TableDatasetV1,
    rows: Seq<usize>,
    i: int,
    j: int,
)
    requires
        linked_rows(state, dataset_id, schema, dataset, rows),
        state.table_views.at(dataset_id) matches Some(table) ==> (table.sort_column matches Some(
            name,
        ) ==> forall|k: int|
            0 <= k < dataset.columns@.len() ==> (#[trigger] dataset.columns@[k]).column_id@
                != name@),
        0 <= i < j < rows.len(),
    ensures
        rows[i] < rows[j],
{
    rows_in_roi_increase(state.active_analysis_roi, schema, dataset, dataset.rows as nat);
    if let Some(table) = state.table_views.at(dataset_id) {
        if let Some(name) = table.sort_column {
            column_is_the_first_of_its_name(dataset.columns@, name@);
        }
    }
}

/// A page has as many rows as its size says, but for the last one, and all
/// rows stand on one page where that is asked for.
pub proof fn pages_have_their_size(total: int, page: int)
    requires
        total > 0,
        0 <= page,
    ensures
        page + 1 < pages(TablePageSize::Rows25, total) ==> page_rows(
            TablePageSize::Rows25,
            page,
            total,
        ) == (25 * page, 25 * page + 25),
        page + 1 < pages(TablePageSize::Rows100, total) ==> page_rows(
            TablePageSize::Rows100,
            page,
            total,
        ) == (100 * page, 100 * page + 100),
        page + 1 < pages(TablePageSize::Rows500, total) ==> page_rows(
            TablePageSize::Rows500,
            page,
            total,
        ) == (500 * page, 500 * page + 500),
        25 * (pages(TablePageSize::Rows25, total) - 1) < total <= 25 * pages(
            TablePageSize::Rows25,
            total,
        ),
        100 * (pages(TablePageSize::Rows100, total) - 1) < total <= 100 * pages(
            TablePageSize::Rows100,
            total,
        ),
        500 * (pages(TablePageSize::Rows500, total) - 1) < total <= 500 * pages(
            TablePageSize::Rows500,
            total,
        ),
        pages(TablePageSize::All, total) == 1,
        page_rows(TablePageSize::All, 0, total) == (0int, total),
        pages(TablePageSize::Rows25, 0) == 1,
        pages(TablePageSize::All, 0) == 1,
{
    assert((total + total - 1) / total == 1) by (nonlinear_arith)
        requires
            total > 0,
    ;
}

/// A layer is drawn as its dataset asks for, and visible, as circles of size
/// three in light grey where it asks for nothing. It is named by its title, or
/// else by what its rows are, or else by the dataset.
pub proof fn layers_are_drawn_as_asked_for(
    descriptor: HostDatasetDescriptor,
    schema: Option<TableSchema>,
)
    ensures
        ({
            let style = default_style(descriptor, schema);
            &&& descriptor.display matches Some(display) ==> {
                &&& display.layer_title matches Some(title) ==> style.title == title
                &&& display.default_visibility matches Some(visible) ==> style.visible == visible
                &&& display.default_color matches Some(color) ==> style.color == color
                &&& display.default_marker_shape matches Some(shape) ==> style.marker_shape == shape
                &&& display.default_size matches Some(size) ==> style.size == size
            }
            &&& (descriptor.display matches Some(display) ==> display.default_visibility is None)
                ==> style.visible
            &&& (descriptor.display matches Some(display) ==> display.default_color is None)
                ==> style.color == [244u8, 244u8, 244u8, 255u8]
            &&& (descriptor.display matches Some(display) ==> display.default_marker_shape is None)
                ==> style.marker_shape is Circle
            &&& (descriptor.display matches Some(display) ==> display.default_size is None)
                ==> style.size == (Real32 { bits: 0x4040_0000 })
            &&& (descriptor.display matches Some(display) ==> display.layer_title is None) ==> {
                &&& schema matches Some(s) ==> (s.semantic_label matches Some(label) ==> style.title
                    == label)
                &&& (schema matches Some(s) ==> s.semantic_label is None) ==> style.title
                    == descriptor.title
            }
        }),
        schema matches Some(s) ==> (s.layer_id matches Some(id) ==> layer_of(descriptor, schema)
            == id@),
        (schema matches Some(s) ==> s.layer_id is None) ==> layer_of(descriptor, schema)
            == descriptor.id@,
{
}

/// A layer is shown as it was switched, whatever it begins with.
pub proof fn layers_are_shown_as_switched(
    state: InvestigationState,
    layer_id: Seq<char>,
    fallback: bool,
)
    ensures
        state.layer_visibility.at(layer_id) == Some(true) ==> state.shown(layer_id, fallback),
        state.layer_visibility.at(layer_id) == Some(false) ==> !state.shown(layer_id, fallback),
        state.layer_visibility.at(layer_id) is None ==> state.shown(layer_id, fallback) == fallback,
{
}

/// What changes the layers or the selection leaves the rest of an
/// investigation as it was.
pub proof fn other_parts_stay(a: InvestigationState, b: InvestigationState)
    ensures
        same_but_layers(a, b) <==> a == (InvestigationState {
            focused_layers: a.focused_layers,
            layer_visibility: a.layer_visibility,
            layer_styles: a.layer_styles,
            ..b
        }),
        same_but_selection(a, b) <==> a == (InvestigationState {
            selected_rows: a.selected_rows,
            ..b
        }),
{
}

} // verus!
