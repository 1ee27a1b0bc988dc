//! The data that plugins publish to the host: tables, descriptors of datasets,
//! views and actions, and the schema of a settings form.
use crate::alike::{lists_alike, options_alike, same_list, same_option, Alike};
use crate::binary64::{Real32, Real64};
use crate::json::{json_same, json_tree, JsonTree};
use crate::text::same_text;
use vstd::prelude::*;

verus! {

// ---------------------------------------------------------------------------
// Table schema
// ---------------------------------------------------------------------------
#[derive(Debug, Clone, Copy, PartialEq, Eq, Structural)]
pub enum TableValueType {
    U64,
    I64,
    F64,
    String,
    Bool,
}

#[derive(Debug, Clone)]
pub struct TableColumn {
    pub id: String,
    pub title: String,
    pub value_type: TableValueType,
}

impl Alike for TableColumn {
    open spec fn alike(&self, other: &Self) -> bool {
        self.id@ == other.id@ && self.title@ == other.title@ && self.value_type == other.value_type
    }

    fn same(&self, other: &Self) -> (out: bool) {
        self.id == other.id && self.title == other.title && self.value_type == other.value_type
    }
}

#[derive(Debug, Clone)]
pub struct TableCoordinateSpace2d {
    pub x_column: String,
    pub y_column: String,
    pub x_min: Real64,
    pub x_max: Real64,
    pub y_min: Real64,
    pub y_max: Real64,
}

impl Alike for TableCoordinateSpace2d {
    open spec fn alike(&self, other: &Self) -> bool {
        &&& self.x_column@ == other.x_column@
        &&& self.y_column@ == other.y_column@
        &&& Alike::alike(&self.x_min, &other.x_min)
        &&& Alike::alike(&self.x_max, &other.x_max)
        &&& Alike::alike(&self.y_min, &other.y_min)
        &&& Alike::alike(&self.y_max, &other.y_max)
    }

    fn same(&self, other: &Self) -> (out: bool) {
        self.x_column == other.x_column && self.y_column == other.y_column && self.x_min.equals(
            other.x_min,
        ) && self.x_max.equals(other.x_max) && self.y_min.equals(other.y_min) && self.y_max.equals(
            other.y_max,
        )
    }
}

#[derive(Debug, Clone)]
pub struct TableCoordinateSpace3d {
    pub x_column: String,
    pub y_column: String,
    pub z_column: String,
    pub x_min: Real64,
    pub x_max: Real64,
    pub y_min: Real64,
    pub y_max: Real64,
    pub z_min: Real64,
    pub z_max: Real64,
}

impl Alike for TableCoordinateSpace3d {
    open spec fn alike(&self, other: &Self) -> bool {
        &&& self.x_column@ == other.x_column@
        &&& self.y_column@ == other.y_column@
        &&& self.z_column@ == other.z_column@
        &&& Alike::alike(&self.x_min, &other.x_min)
        &&& Alike::alike(&self.x_max, &other.x_max)
        &&& Alike::alike(&self.y_min, &other.y_min)
        &&& Alike::alike(&self.y_max, &other.y_max)
        &&& Alike::alike(&self.z_min, &other.z_min)
        &&& Alike::alike(&self.z_max, &other.z_max)
    }

    fn same(&self, other: &Self) -> (out: bool) {
        self.x_column == other.x_column && self.y_column == other.y_column && self.z_column
            == other.z_column && self.x_min.equals(other.x_min) && self.x_max.equals(other.x_max)
            && self.y_min.equals(other.y_min) && self.y_max.equals(other.y_max)
            && self.z_min.equals(other.z_min) && self.z_max.equals(other.z_max)
    }
}

/// The columns that say when a row happened.
#[derive(Debug, Clone)]
pub struct TableRowProvenance {
    pub anchor_time_column: Option<String>,
    pub span_start_column: Option<String>,
    pub span_end_column: Option<String>,
    pub anchor_frame_column: Option<String>,
}

impl Alike for TableRowProvenance {
    open spec fn alike(&self, other: &Self) -> bool {
        &&& options_alike(self.anchor_time_column, other.anchor_time_column)
        &&& options_alike(self.span_start_column, other.span_start_column)
        &&& options_alike(self.span_end_column, other.span_end_column)
        &&& options_alike(self.anchor_frame_column, other.anchor_frame_column)
    }

    fn same(&self, other: &Self) -> (out: bool) {
        same_option(&self.anchor_time_column, &other.anchor_time_column) && same_option(
            &self.span_start_column,
            &other.span_start_column,
        ) && same_option(&self.span_end_column, &other.span_end_column) && same_option(
            &self.anchor_frame_column,
            &other.anchor_frame_column,
        )
    }
}

#[derive(Debug, Clone, Copy, PartialEq, Eq, Structural)]
pub enum TableColumnDisplayFormat {
    TimestampMicros,
    FixedPrecision { digits: u8 },
    Identifier,
    Category,
}

#[derive(Debug, Clone, Copy, PartialEq, Eq, Structural)]
pub enum TableColumnWidthPriority {
    High,
    Medium,
    Low,
}

/// How a column is shown.
#[derive(Debug, Clone)]
pub struct TableColumnDisplayMetadata {
    pub label: Option<String>,
    pub format: Option<TableColumnDisplayFormat>,
    pub headline: bool,
    pub hide_in_compact: bool,
    pub width_priority: Option<TableColumnWidthPriority>,
}

impl Default for TableColumnDisplayMetadata {
    fn default() -> (out: Self)
        ensures
            out == (TableColumnDisplayMetadata {
                label: None,
                format: None,
                headline: false,
                hide_in_compact: false,
                width_priority: None,
            }),
    {
        TableColumnDisplayMetadata {
            label: None,
            format: None,
            headline: false,
            hide_in_compact: false,
            width_priority: None,
        }
    }
}

impl Alike for TableColumnDisplayMetadata {
    open spec fn alike(&self, other: &Self) -> bool {
        &&& options_alike(self.label, other.label)
        &&& self.format == other.format
        &&& self.headline == other.headline
        &&& self.hide_in_compact == other.hide_in_compact
        &&& self.width_priority == other.width_priority
    }

    fn same(&self, other: &Self) -> (out: bool) {
        let same_format = match (self.format, other.format) {
            (Some(a), Some(b)) => a == b,
            (None, None) => true,
            _ => false,
        };
        let same_width = match (self.width_priority, other.width_priority) {
            (Some(a), Some(b)) => a == b,
            (None, None) => true,
            _ => false,
        };
        same_option(&self.label, &other.label) && same_format && self.headline == other.headline
            && self.hide_in_compact == other.hide_in_compact && same_width
    }
}

/// The display metadata of one column.
#[derive(Debug, Clone)]
pub struct TableColumnDisplay {
    pub column_id: String,
    pub display: TableColumnDisplayMetadata,
}

impl Alike for TableColumnDisplay {
    open spec fn alike(&self, other: &Self) -> bool {
        self.column_id@ == other.column_id@ && self.display.alike(&other.display)
    }

    fn same(&self, other: &Self) -> (out: bool) {
        self.column_id == other.column_id && self.display.same(&other.display)
    }
}

#[derive(Debug, Clone)]
pub struct TableSchema {
    pub columns: Vec<TableColumn>,
    pub coordinate_space_2d: Option<TableCoordinateSpace2d>,
    pub coordinate_space_3d: Option<TableCoordinateSpace3d>,
    pub row_id_column: Option<String>,
    pub time_column: Option<String>,
    pub layer_id: Option<String>,
    pub semantic_label: Option<String>,
    pub provenance: Option<TableRowProvenance>,
    pub column_display: Vec<TableColumnDisplay>,
}

impl Alike for TableSchema {
    open spec fn alike(&self, other: &Self) -> bool {
        &&& lists_alike(self.columns@, other.columns@)
        &&& options_alike(self.coordinate_space_2d, other.coordinate_space_2d)
        &&& options_alike(self.coordinate_space_3d, other.coordinate_space_3d)
        &&& options_alike(self.row_id_column, other.row_id_column)
        &&& options_alike(self.time_column, other.time_column)
        &&& options_alike(self.layer_id, other.layer_id)
        &&& options_alike(self.semantic_label, other.semantic_label)
        &&& options_alike(self.provenance, other.provenance)
        &&& lists_alike(self.column_display@, other.column_display@)
    }

    fn same(&self, other: &Self) -> (out: bool) {
        same_list(&self.columns, &other.columns) && same_option(
            &self.coordinate_space_2d,
            &other.coordinate_space_2d,
        ) && same_option(&self.coordinate_space_3d, &other.coordinate_space_3d) && same_option(
            &self.row_id_column,
            &other.row_id_column,
        ) && same_option(&self.time_column, &other.time_column) && same_option(
            &self.layer_id,
            &other.layer_id,
        ) && same_option(&self.semantic_label, &other.semantic_label) && same_option(
            &self.provenance,
            &other.provenance,
        ) && same_list(&self.column_display, &other.column_display)
    }
}

/// The display metadata of the column `id`: the last entry that names it.
pub open spec fn display_of(entries: Seq<TableColumnDisplay>, id: Seq<char>) -> Option<
    TableColumnDisplayMetadata,
>
    decreases entries.len(),
{
    if entries.len() == 0 {
        None
    } else if entries.last().column_id@ == id {
        Some(entries.last().display)
    } else {
        display_of(entries.drop_last(), id)
    }
}

impl TableSchema {
    /// The display metadata of a column, where the schema has any.
    pub fn display(&self, column_id: &str) -> (out: Option<&TableColumnDisplayMetadata>)
        ensures
            match out {
                Some(display) => display_of(self.column_display@, column_id@) == Some(*display),
                None => display_of(self.column_display@, column_id@) is None,
            },
    {
        let mut i: usize = self.column_display.len();
        assert(self.column_display@.take(i as int) =~= self.column_display@);
        while i > 0
            invariant
                i <= self.column_display@.len(),
                display_of(self.column_display@.take(i as int), column_id@) == display_of(
                    self.column_display@,
                    column_id@,
                ),
            decreases i,
        {
            assert(self.column_display@.take(i as int).drop_last() =~= self.column_display@.take(
                i - 1,
            ));
            i = i - 1;
            if same_text(self.column_display[i].column_id.as_str(), column_id) {
                return Some(&self.column_display[i].display);
            }
        }
        None
    }
}

// ---------------------------------------------------------------------------
// Table data
// ---------------------------------------------------------------------------
/// A floating-point cell.
#[derive(Debug, Clone)]
pub struct FloatCell {
    pub value: Real64,
    /// The value as a JSON number, where it is finite.
    pub json: Option<serde_json::Value>,
}

impl FloatCell {
    pub open spec fn wf(self) -> bool {
        match self.json {
            Some(number) => self.value.is_finite() && json_tree(number) == JsonTree::Float(
                self.value.order_key(),
            ),
            None => !self.value.is_finite(),
        }
    }
}

#[derive(Debug, Clone)]
pub enum TableColumnValues {
    U64(Vec<u64>),
    I64(Vec<i64>),
    F64(Vec<FloatCell>),
    String(Vec<String>),
    Bool(Vec<bool>),
}

/// One column of a table. Beside the cells it holds, row by row, the number
/// that a cell stands for in a plot and the text that it is shown as.
#[derive(Debug, Clone)]
pub struct TableColumnData {
    pub column_id: String,
    pub values: TableColumnValues,
    pub numeric: Vec<Option<Real64>>,
    pub display: Vec<String>,
}

impl TableColumnData {
    /// The number of the cell in `row`, where it is numeric.
    pub open spec fn numeric_at(self, row: int) -> Option<Real64> {
        if 0 <= row < self.numeric@.len() {
            self.numeric@[row]
        } else {
            None
        }
    }

    pub fn numeric_value(&self, row: usize) -> (out: Option<Real64>)
        ensures
            out == self.numeric_at(row as int),
    {
        if row < self.numeric.len() {
            self.numeric[row]
        } else {
            None
        }
    }

    /// The text of the cell in `row`, `-` where there is no such cell.
    pub open spec fn shown_at(self, row: int) -> Seq<char> {
        if 0 <= row < self.display@.len() {
            self.display@[row]@
        } else {
            "-"@
        }
    }

    pub fn display_value(&self, row: usize) -> (out: String)
        ensures
            out@ == self.shown_at(row as int),
    {
        if row < self.display.len() {
            self.display[row].clone()
        } else {
            "-".to_owned()
        }
    }
}

/// A table. Beside its columns it holds, row by row, the time span and the
/// anchor time that the schema's provenance gives a row.
#[derive(Debug, Clone)]
pub struct TableDatasetV1 {
    pub columns: Vec<TableColumnData>,
    pub rows: usize,
    pub spans: Vec<Option<(u64, u64)>>,
    pub anchors: Vec<Option<u64>>,
}

/// The first column with the given id.
pub open spec fn find_column(columns: Seq<TableColumnData>, id: Seq<char>) -> Option<
    TableColumnData,
>
    decreases columns.len(),
{
    if columns.len() == 0 {
        None
    } else if columns[0].column_id@ == id {
        Some(columns[0])
    } else {
        find_column(columns.drop_first(), id)
    }
}

impl TableDatasetV1 {
    pub fn row_count(&self) -> (out: usize)
        ensures
            out == self.rows,
    {
        self.rows
    }

    pub open spec fn named(self, id: Seq<char>) -> Option<TableColumnData> {
        find_column(self.columns@, id)
    }

    pub fn column(&self, id: &str) -> (out: Option<&TableColumnData>)
        ensures
            match out {
                Some(column) => self.named(id@) == Some(*column),
                None => self.named(id@) is None,
            },
    {
        let mut i: usize = 0;
        assert(self.columns@.skip(0) =~= self.columns@);
        while i < self.columns.len()
            invariant
                i <= self.columns@.len(),
                find_column(self.columns@.skip(i as int), id@) == find_column(self.columns@, id@),
            decreases self.columns@.len() - i,
        {
            assert(self.columns@.skip(i as int).drop_first() =~= self.columns@.skip(i + 1));
            if same_text(self.columns[i].column_id.as_str(), id) {
                return Some(&self.columns[i]);
            }
            i = i + 1;
        }
        None
    }

    /// The time span of a row, where it has one.
    pub open spec fn span_at(self, row: int) -> Option<(u64, u64)> {
        if 0 <= row < self.spans@.len() {
            self.spans@[row]
        } else {
            None
        }
    }

    pub fn row_span_us(&self, row: usize) -> (out: Option<(u64, u64)>)
        ensures
            out == self.span_at(row as int),
    {
        if row < self.spans.len() {
            self.spans[row]
        } else {
            None
        }
    }

    /// The anchor time of a row, where it has one.
    pub open spec fn anchor_at(self, row: int) -> Option<u64> {
        if 0 <= row < self.anchors@.len() {
            self.anchors@[row]
        } else {
            None
        }
    }

    pub fn row_anchor_timestamp_us(&self, row: usize) -> (out: Option<u64>)
        ensures
            out == self.anchor_at(row as int),
    {
        if row < self.anchors.len() {
            self.anchors[row]
        } else {
            None
        }
    }
}

// ---------------------------------------------------------------------------
// Datasets
// ---------------------------------------------------------------------------
#[derive(Debug, Clone, Copy, PartialEq, Eq, Structural)]
pub enum HostMarkerShape {
    Circle,
    Square,
    Point,
    Cross,
    Box,
    Ellipse,
    Diamond,
    FilledCircle,
}

/// How a dataset asks to be shown as a layer.
#[derive(Debug, Clone)]
pub struct HostDatasetDisplay {
    pub layer_title: Option<String>,
    pub default_visibility: Option<bool>,
    pub default_color: Option<[u8; 4]>,
    pub default_marker_shape: Option<HostMarkerShape>,
    pub default_size: Option<Real32>,
}

/// Whether two colours have the same four channels.
pub fn same_color(a: &[u8; 4], b: &[u8; 4]) -> (out: bool)
    ensures
        out == (a@ == b@),
{
    let out = a[0] == b[0] && a[1] == b[1] && a[2] == b[2] && a[3] == b[3];
    assert(out ==> a@ =~= b@);
    out
}

impl Alike for HostDatasetDisplay {
    open spec fn alike(&self, other: &Self) -> bool {
        &&& options_alike(self.layer_title, other.layer_title)
        &&& self.default_visibility == other.default_visibility
        &&& match (self.default_color, other.default_color) {
            (Some(a), Some(b)) => a@ == b@,
            (None, None) => true,
            _ => false,
        }
        &&& self.default_marker_shape == other.default_marker_shape
        &&& options_alike(self.default_size, other.default_size)
    }

    fn same(&self, other: &Self) -> (out: bool) {
        let same_visibility = match (self.default_visibility, other.default_visibility) {
            (Some(a), Some(b)) => a == b,
            (None, None) => true,
            _ => false,
        };
        let colors_match = match (&self.default_color, &other.default_color) {
            (Some(a), Some(b)) => same_color(a, b),
            (None, None) => true,
            _ => false,
        };
        let same_shape = match (self.default_marker_shape, other.default_marker_shape) {
            (Some(a), Some(b)) => a == b,
            (None, None) => true,
            _ => false,
        };
        same_option(&self.layer_title, &other.layer_title) && same_visibility && colors_match
            && same_shape && same_option(&self.default_size, &other.default_size)
    }
}

/// Rows of this dataset point at rows of another: those whose `target_column`
/// holds what `via_column` holds here.
#[derive(Debug, Clone)]
pub struct HostDatasetRelation {
    pub via_column: String,
    pub target_dataset_id: String,
    pub target_column: String,
}

impl Alike for HostDatasetRelation {
    open spec fn alike(&self, other: &Self) -> bool {
        &&& self.via_column@ == other.via_column@
        &&& self.target_dataset_id@ == other.target_dataset_id@
        &&& self.target_column@ == other.target_column@
    }

    fn same(&self, other: &Self) -> (out: bool) {
        self.via_column == other.via_column && self.target_dataset_id == other.target_dataset_id
            && self.target_column == other.target_column
    }
}

#[derive(Debug, Clone)]
pub enum HostDatasetKind {
    TableV1(TableSchema),
    Image2dV1,
    Series1dV1,
}

impl HostDatasetKind {
    /// The schema of a tabular dataset.
    pub fn table_schema(&self) -> (out: Option<&TableSchema>)
        ensures
            match *self {
                HostDatasetKind::TableV1(schema) => out == Some(&schema),
                _ => out is None,
            },
    {
        match self {
            HostDatasetKind::TableV1(schema) => Some(schema),
            HostDatasetKind::Image2dV1 | HostDatasetKind::Series1dV1 => None,
        }
    }
}

impl Alike for HostDatasetKind {
    open spec fn alike(&self, other: &Self) -> bool {
        match (*self, *other) {
            (HostDatasetKind::TableV1(a), HostDatasetKind::TableV1(b)) => a.alike(&b),
            (HostDatasetKind::Image2dV1, HostDatasetKind::Image2dV1) => true,
            (HostDatasetKind::Series1dV1, HostDatasetKind::Series1dV1) => true,
            _ => false,
        }
    }

    fn same(&self, other: &Self) -> (out: bool) {
        match (self, other) {
            (HostDatasetKind::TableV1(a), HostDatasetKind::TableV1(b)) => a.same(b),
            (HostDatasetKind::Image2dV1, HostDatasetKind::Image2dV1) => true,
            (HostDatasetKind::Series1dV1, HostDatasetKind::Series1dV1) => true,
            _ => false,
        }
    }
}

#[derive(Debug, Clone)]
pub struct HostDatasetDescriptor {
    pub id: String,
    pub title: String,
    pub kind: HostDatasetKind,
    /// How the kind is spelled out in a warning. It follows from the kind and
    /// takes no part in comparisons.
    pub kind_text: String,
    pub empty_message: String,
    pub display: Option<HostDatasetDisplay>,
    pub relations: Vec<HostDatasetRelation>,
}

impl Alike for HostDatasetDescriptor {
    open spec fn alike(&self, other: &Self) -> bool {
        &&& self.id@ == other.id@
        &&& self.title@ == other.title@
        &&& self.kind.alike(&other.kind)
        &&& self.empty_message@ == other.empty_message@
        &&& options_alike(self.display, other.display)
        &&& lists_alike(self.relations@, other.relations@)
    }

    fn same(&self, other: &Self) -> (out: bool) {
        self.id == other.id && self.title == other.title && self.kind.same(&other.kind)
            && self.empty_message == other.empty_message && same_option(
            &self.display,
            &other.display,
        ) && same_list(&self.relations, &other.relations)
    }
}

// ---------------------------------------------------------------------------
// Views and actions
// ---------------------------------------------------------------------------
#[derive(Debug, Clone, Copy, PartialEq, Eq, Structural)]
pub enum HostViewPlacement {
    AnalysisPanel,
    Window,
}

#[derive(Debug, Clone)]
pub enum HostViewKind {
    CompactTable,
    TableWindow,
    Density2dFromTable { x_column: String, y_column: String },
    Scatter2dFromTable { x_column: String, y_column: String },
    Scatter3dFromTable { x_column: String, y_column: String, z_column: String },
    ImageWindow,
    LineSeriesWindow,
}

impl Alike for HostViewKind {
    open spec fn alike(&self, other: &Self) -> bool {
        match (*self, *other) {
            (HostViewKind::CompactTable, HostViewKind::CompactTable) => true,
            (HostViewKind::TableWindow, HostViewKind::TableWindow) => true,
            (HostViewKind::ImageWindow, HostViewKind::ImageWindow) => true,
            (HostViewKind::LineSeriesWindow, HostViewKind::LineSeriesWindow) => true,
            (
                HostViewKind::Density2dFromTable { x_column: x1, y_column: y1 },
                HostViewKind::Density2dFromTable { x_column: x2, y_column: y2 },
            ) => x1@ == x2@ && y1@ == y2@,
            (
                HostViewKind::Scatter2dFromTable { x_column: x1, y_column: y1 },
                HostViewKind::Scatter2dFromTable { x_column: x2, y_column: y2 },
            ) => x1@ == x2@ && y1@ == y2@,
            (
                HostViewKind::Scatter3dFromTable { x_column: x1, y_column: y1, z_column: z1 },
                HostViewKind::Scatter3dFromTable { x_column: x2, y_column: y2, z_column: z2 },
            ) => x1@ == x2@ && y1@ == y2@ && z1@ == z2@,
            _ => false,
        }
    }

    fn same(&self, other: &Self) -> (out: bool) {
        match (self, other) {
            (HostViewKind::CompactTable, HostViewKind::CompactTable) => true,
            (HostViewKind::TableWindow, HostViewKind::TableWindow) => true,
            (HostViewKind::ImageWindow, HostViewKind::ImageWindow) => true,
            (HostViewKind::LineSeriesWindow, HostViewKind::LineSeriesWindow) => true,
            (
                HostViewKind::Density2dFromTable { x_column: x1, y_column: y1 },
                HostViewKind::Density2dFromTable { x_column: x2, y_column: y2 },
            ) => *x1 == *x2 && *y1 == *y2,
            (
                HostViewKind::Scatter2dFromTable { x_column: x1, y_column: y1 },
                HostViewKind::Scatter2dFromTable { x_column: x2, y_column: y2 },
            ) => *x1 == *x2 && *y1 == *y2,
            (
                HostViewKind::Scatter3dFromTable { x_column: x1, y_column: y1, z_column: z1 },
                HostViewKind::Scatter3dFromTable { x_column: x2, y_column: y2, z_column: z2 },
            ) => *x1 == *x2 && *y1 == *y2 && *z1 == *z2,
            _ => false,
        }
    }
}

#[derive(Debug, Clone)]
pub struct HostViewDescriptor {
    pub id: String,
    pub title: String,
    pub dataset_id: String,
    pub placement: HostViewPlacement,
    pub kind: HostViewKind,
}

impl Alike for HostViewDescriptor {
    open spec fn alike(&self, other: &Self) -> bool {
        &&& self.id@ == other.id@
        &&& self.title@ == other.title@
        &&& self.dataset_id@ == other.dataset_id@
        &&& self.placement == other.placement
        &&& self.kind.alike(&other.kind)
    }

    fn same(&self, other: &Self) -> (out: bool) {
        self.id == other.id && self.title == other.title && self.dataset_id == other.dataset_id
            && self.placement == other.placement && self.kind.same(&other.kind)
    }
}

/// What an action acts on.
#[derive(Debug, Clone)]
pub enum HostActionScope {
    Dataset { dataset_id: String },
    Row { dataset_id: String },
    Cluster { dataset_id: String, group_column: String },
}

impl HostActionScope {
    /// The dataset that the action is about.
    pub open spec fn dataset(self) -> Seq<char> {
        match self {
            HostActionScope::Dataset { dataset_id } => dataset_id@,
            HostActionScope::Row { dataset_id } => dataset_id@,
            HostActionScope::Cluster { dataset_id, .. } => dataset_id@,
        }
    }
}

impl Alike for HostActionScope {
    open spec fn alike(&self, other: &Self) -> bool {
        match (*self, *other) {
            (
                HostActionScope::Dataset { dataset_id: a },
                HostActionScope::Dataset { dataset_id: b },
            ) => a@ == b@,
            (
                HostActionScope::Row { dataset_id: a },
                HostActionScope::Row { dataset_id: b },
            ) => a@ == b@,
            (
                HostActionScope::Cluster { dataset_id: a, group_column: g },
                HostActionScope::Cluster { dataset_id: b, group_column: h },
            ) => a@ == b@ && g@ == h@,
            _ => false,
        }
    }

    fn same(&self, other: &Self) -> (out: bool) {
        match (self, other) {
            (
                HostActionScope::Dataset { dataset_id: a },
                HostActionScope::Dataset { dataset_id: b },
            ) => *a == *b,
            (
                HostActionScope::Row { dataset_id: a },
                HostActionScope::Row { dataset_id: b },
            ) => *a == *b,
            (
                HostActionScope::Cluster { dataset_id: a, group_column: g },
                HostActionScope::Cluster { dataset_id: b, group_column: h },
            ) => *a == *b && *g == *h,
            _ => false,
        }
    }
}

#[derive(Debug, Clone)]
pub struct HostActionDescriptor {
    pub id: String,
    pub title: String,
    pub scope: HostActionScope,
    pub param_schema: Option<serde_json::Value>,
}

impl Alike for HostActionDescriptor {
    open spec fn alike(&self, other: &Self) -> bool {
        &&& self.id@ == other.id@
        &&& self.title@ == other.title@
        &&& self.scope.alike(&other.scope)
        &&& match (self.param_schema, other.param_schema) {
            (Some(a), Some(b)) => json_tree(a) == json_tree(b),
            (None, None) => true,
            _ => false,
        }
    }

    fn same(&self, other: &Self) -> (out: bool) {
        let same_schema = match (&self.param_schema, &other.param_schema) {
            (Some(a), Some(b)) => json_same(a, b),
            (None, None) => true,
            _ => false,
        };
        self.id == other.id && self.title == other.title && self.scope.same(&other.scope)
            && same_schema
    }
}

/// What one plugin publishes.
#[derive(Debug, Clone)]
pub struct HostViewRegistry {
    pub datasets: Vec<HostDatasetDescriptor>,
    pub views: Vec<HostViewDescriptor>,
    pub actions: Vec<HostActionDescriptor>,
}

/// The column that is found by a name is the first one with it, and none is
/// found only where no column has the name.
pub proof fn column_is_the_first_of_its_name(columns: Seq<TableColumnData>, id: Seq<char>)
    ensures
        match find_column(columns, id) {
            Some(column) => exists|c: int|
                0 <= c < columns.len() && #[trigger] columns[c] == column && column.column_id@ == id
                    && forall|k: int| 0 <= k < c ==> (#[trigger] columns[k]).column_id@ != id,
            None => forall|k: int| 0 <= k < columns.len() ==> (#[trigger] columns[k]).column_id@ != id,
        },
    decreases columns.len(),
{
    if columns.len() > 0 {
        if columns[0].column_id@ == id {
            assert(columns[0] == find_column(columns, id)->0);
        } else {
            let rest = columns.drop_first();
            column_is_the_first_of_its_name(rest, id);
            match find_column(rest, id) {
                Some(column) => {
                    let c = choose|c: int|
                        0 <= c < rest.len() && #[trigger] rest[c] == column && column.column_id@
                            == id && forall|k: int|
                            0 <= k < c ==> (#[trigger] rest[k]).column_id@ != id;
                    assert(columns[c + 1] == column);
                    assert forall|k: int| 0 <= k < c + 1 implies (
                    #[trigger] columns[k]).column_id@ != id by {
                        if k > 0 {
                            assert(rest[k - 1] == columns[k]);
                        }
                    }
                },
                None => {
                    assert forall|k: int| 0 <= k < columns.len() implies (
                    #[trigger] columns[k]).column_id@ != id by {
                        if k > 0 {
                            assert(rest[k - 1] == columns[k]);
                        }
                    }
                },
            }
        }
    }
}

/// The display of a column is that of the last entry that names it.
pub proof fn display_is_the_last_of_its_name(entries: Seq<TableColumnDisplay>, id: Seq<char>)
    ensures
        match display_of(entries, id) {
            Some(display) => exists|e: int|
                0 <= e < entries.len() && (#[trigger] entries[e]).display == display
                    && entries[e].column_id@ == id && forall|k: int|
                    e < k < entries.len() ==> (#[trigger] entries[k]).column_id@ != id,
            None => forall|k: int| 0 <= k < entries.len() ==> (#[trigger] entries[k]).column_id@ != id,
        },
    decreases entries.len(),
{
    if entries.len() > 0 {
        if entries.last().column_id@ == id {
            assert(entries[entries.len() - 1].display == entries.last().display);
        } else {
            let rest = entries.drop_last();
            display_is_the_last_of_its_name(rest, id);
            assert(forall|k: int| 0 <= k < rest.len() ==> #[trigger] rest[k] == entries[k]);
            assert(entries[entries.len() - 1].column_id@ != id);
            if display_of(rest, id) is None {
                assert forall|k: int| 0 <= k < entries.len() implies (
                #[trigger] entries[k]).column_id@ != id by {
                    if k < rest.len() {
                        assert(rest[k].column_id@ != id);
                    }
                }
            }
            if let Some(display) = display_of(rest, id) {
                let e = choose|e: int|
                    0 <= e < rest.len() && (#[trigger] rest[e]).display == display
                        && rest[e].column_id@ == id && forall|k: int|
                        e < k < rest.len() ==> (#[trigger] rest[k]).column_id@ != id;
                assert(entries[e].display == display);
                assert forall|k: int| e < k < entries.len() implies (
                #[trigger] entries[k]).column_id@ != id by {
                    if k < rest.len() {
                        assert(rest[k].column_id@ != id);
                    }
                }
            }
        }
    }
}

/// Every row of a table has what stands in its place, from the first row to
/// the last, and there is nothing outside: its text, its number, its anchor and
/// its span.
pub proof fn rows_have_what_stands_in_their_place(
    column: TableColumnData,
    table: TableDatasetV1,
    row: int,
)
    ensures
        0 <= row < column.display@.len() ==> column.shown_at(row) == column.display@[row]@,
        row < 0 || row >= column.display@.len() ==> column.shown_at(row) == "-"@,
        0 <= row < column.numeric@.len() ==> column.numeric_at(row) == column.numeric@[row],
        row < 0 || row >= column.numeric@.len() ==> column.numeric_at(row) is None,
        0 <= row < table.anchors@.len() ==> table.anchor_at(row) == table.anchors@[row],
        row < 0 || row >= table.anchors@.len() ==> table.anchor_at(row) is None,
        0 <= row < table.spans@.len() ==> table.span_at(row) == table.spans@[row],
        row < 0 || row >= table.spans@.len() ==> table.span_at(row) is None,
{
}

} // verus!
