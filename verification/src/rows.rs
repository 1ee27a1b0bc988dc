//! Rows of a table: their stable keys, their coordinates, and the order in
//! which they are listed.
use crate::binary64::{whole, whole_numbers_keep_order, Real64};
use crate::host_data::{
    column_is_the_first_of_its_name, TableColumnValues, TableDatasetV1, TableSchema,
};
use crate::lists::filtered_list_holds;
use crate::ordered_set::Ordered;
use crate::text::{
    decimal, decimal_round_trip, decimal_text, decimal_value, decimals_have_no_zero_in_front,
    less_text, push_decimal, signed_decimal, signed_decimal_text,
    text_less, text_less_irreflexive, text_less_total, text_less_transitive,
    texts_are_ordered_by_the_first_difference,
};
use crate::whole_text::{push_shortest, shortest_text};
use vstd::prelude::*;

verus! {

// ---------------------------------------------------------------------------
// Keys
// ---------------------------------------------------------------------------
/// The key of a row that stays the same while the dataset is published anew.
#[derive(Debug, Clone, PartialEq, Eq, PartialOrd, Ord, Hash)]
pub struct StableRowKey {
    pub dataset_id: String,
    pub row_id: String,
}

impl StableRowKey {
    /// The two texts of the key.
    pub open spec fn pair(self) -> (Seq<char>, Seq<char>) {
        (self.dataset_id@, self.row_id@)
    }

    pub fn new(dataset_id: &str, row_id: &str) -> (out: Self)
        ensures
            out.pair() == (dataset_id@, row_id@),
    {
        StableRowKey { dataset_id: dataset_id.to_owned(), row_id: row_id.to_owned() }
    }

    pub fn same_key(&self, other: &StableRowKey) -> (out: bool)
        ensures
            out == (self.pair() == other.pair()),
    {
        self.dataset_id == other.dataset_id && self.row_id == other.row_id
    }

    pub fn copied(&self) -> (out: StableRowKey)
        ensures
            out == *self,
    {
        StableRowKey { dataset_id: self.dataset_id.clone(), row_id: self.row_id.clone() }
    }
}

impl Ordered for StableRowKey {
    type Key = (Seq<char>, Seq<char>);

    open spec fn key(&self) -> (Seq<char>, Seq<char>) {
        self.pair()
    }

    open spec fn key_less(a: (Seq<char>, Seq<char>), b: (Seq<char>, Seq<char>)) -> bool {
        text_less(a.0, b.0) || (a.0 == b.0 && text_less(a.1, b.1))
    }

    fn comes_before(&self, other: &Self) -> (out: bool) {
        less_text(self.dataset_id.as_str(), other.dataset_id.as_str()) || (self.dataset_id
            == other.dataset_id && less_text(self.row_id.as_str(), other.row_id.as_str()))
    }

    proof fn irreflexive(a: (Seq<char>, Seq<char>)) {
        text_less_irreflexive(a.0);
        text_less_irreflexive(a.1);
    }

    proof fn transitive(
        a: (Seq<char>, Seq<char>),
        b: (Seq<char>, Seq<char>),
        c: (Seq<char>, Seq<char>),
    ) {
        if text_less(a.0, b.0) && text_less(b.0, c.0) {
            text_less_transitive(a.0, b.0, c.0);
        } else if a.0 == b.0 && b.0 == c.0 {
            text_less_transitive(a.1, b.1, c.1);
        }
    }

    proof fn total(a: (Seq<char>, Seq<char>), b: (Seq<char>, Seq<char>)) {
        if a.0 != b.0 {
            text_less_total(a.0, b.0);
        } else {
            text_less_total(a.1, b.1);
        }
    }
}

/// The text that identifies a row by one of its cells. Floating-point and
/// boolean cells identify nothing.
pub open spec fn stable_id(values: TableColumnValues, row: int) -> Option<Seq<char>> {
    match values {
        TableColumnValues::U64(v) => if 0 <= row < v@.len() {
            Some(decimal(v@[row] as nat))
        } else {
            None
        },
        TableColumnValues::I64(v) => if 0 <= row < v@.len() {
            Some(signed_decimal(v@[row] as int))
        } else {
            None
        },
        TableColumnValues::String(v) => if 0 <= row < v@.len() {
            Some(v@[row]@)
        } else {
            None
        },
        TableColumnValues::F64(_) => None,
        TableColumnValues::Bool(_) => None,
    }
}

/// An optional text by its characters.
pub open spec fn opt_text(text: Option<String>) -> Option<Seq<char>> {
    match text {
        Some(t) => Some(t@),
        None => None,
    }
}

pub fn stable_row_id_value(values: &TableColumnValues, index: usize) -> (out: Option<String>)
    ensures
        opt_text(out) == stable_id(*values, index as int),
{
    match values {
        TableColumnValues::U64(v) => if index < v.len() {
            Some(decimal_text(v[index]))
        } else {
            None
        },
        TableColumnValues::I64(v) => if index < v.len() {
            Some(signed_decimal_text(v[index]))
        } else {
            None
        },
        TableColumnValues::String(v) => if index < v.len() {
            Some(v[index].clone())
        } else {
            None
        },
        TableColumnValues::F64(_) => None,
        TableColumnValues::Bool(_) => None,
    }
}

/// The text of a cell as it is written to a file or compared by value: at full
/// precision, never as it is displayed.
pub open spec fn cell_text(values: TableColumnValues, row: int) -> Option<Seq<char>> {
    match values {
        TableColumnValues::U64(v) => if 0 <= row < v@.len() {
            Some(decimal(v@[row] as nat))
        } else {
            None
        },
        TableColumnValues::I64(v) => if 0 <= row < v@.len() {
            Some(signed_decimal(v@[row] as int))
        } else {
            None
        },
        TableColumnValues::F64(v) => if 0 <= row < v@.len() {
            Some(shortest_text(v@[row].value))
        } else {
            None
        },
        TableColumnValues::String(v) => if 0 <= row < v@.len() {
            Some(v@[row]@)
        } else {
            None
        },
        TableColumnValues::Bool(v) => if 0 <= row < v@.len() {
            Some(
                if v@[row] {
                    "true"@
                } else {
                    "false"@
                },
            )
        } else {
            None
        },
    }
}

fn shortest_float(x: Real64) -> (out: String)
    ensures
        out@ == shortest_text(x),
{
    let mut out = String::new();
    push_shortest(&mut out, x);
    assert(out@ =~= shortest_text(x));
    out
}

pub fn raw_cell_value(values: &TableColumnValues, row: usize) -> (out: Option<String>)
    ensures
        opt_text(out) == cell_text(*values, row as int),
{
    match values {
        TableColumnValues::U64(v) => if row < v.len() {
            Some(decimal_text(v[row]))
        } else {
            None
        },
        TableColumnValues::I64(v) => if row < v.len() {
            Some(signed_decimal_text(v[row]))
        } else {
            None
        },
        TableColumnValues::F64(v) => if row < v.len() {
            Some(shortest_float(v[row].value))
        } else {
            None
        },
        TableColumnValues::String(v) => if row < v.len() {
            Some(v[row].clone())
        } else {
            None
        },
        TableColumnValues::Bool(v) => if row < v.len() {
            Some(
                if v[row] {
                    "true".to_owned()
                } else {
                    "false".to_owned()
                },
            )
        } else {
            None
        },
    }
}

/// The key of a row: the cell of the schema's id column, or the row's place in
/// this generation of the dataset where there is no such cell.
pub open spec fn row_key(
    dataset_id: Seq<char>,
    generation: u64,
    schema: TableSchema,
    dataset: TableDatasetV1,
    row: int,
) -> (Seq<char>, Seq<char>) {
    let by_place = "gen:"@ + decimal(generation as nat) + ":row:"@ + decimal(row as nat);
    let row_id = match schema.row_id_column {
        Some(column_id) => match dataset.named(column_id@) {
            Some(column) => match stable_id(column.values, row) {
                Some(id) => id,
                None => by_place,
            },
            None => by_place,
        },
        None => by_place,
    };
    (dataset_id, row_id)
}

pub fn row_key_for_row(
    dataset_id: &str,
    generation: u64,
    schema: &TableSchema,
    dataset: &TableDatasetV1,
    row: usize,
) -> (out: StableRowKey)
    ensures
        out.pair() == row_key(dataset_id@, generation, *schema, *dataset, row as int),
{
    if let Some(column_id) = &schema.row_id_column {
        if let Some(column) = dataset.column(column_id.as_str()) {
            if let Some(row_id) = stable_row_id_value(&column.values, row) {
                return StableRowKey { dataset_id: dataset_id.to_owned(), row_id };
            }
        }
    }
    let mut row_id = "gen:".to_owned();
    push_decimal(&mut row_id, generation);
    row_id.append(":row:");
    push_decimal(&mut row_id, row as u64);
    StableRowKey { dataset_id: dataset_id.to_owned(), row_id }
}

/// The first row below `n` with the given key.
pub open spec fn first_row_with_key(
    dataset_id: Seq<char>,
    generation: u64,
    schema: TableSchema,
    dataset: TableDatasetV1,
    key: (Seq<char>, Seq<char>),
    n: nat,
) -> Option<int>
    decreases n,
{
    if n == 0 {
        None
    } else {
        match first_row_with_key(dataset_id, generation, schema, dataset, key, (n - 1) as nat) {
            Some(row) => Some(row),
            None => if row_key(dataset_id, generation, schema, dataset, n - 1) == key {
                Some(n - 1)
            } else {
                None
            },
        }
    }
}

/// An optional row number as an integer.
pub open spec fn opt_row(row: Option<usize>) -> Option<int> {
    match row {
        Some(r) => Some(r as int),
        None => None,
    }
}

/// Finds the row with the given key.
pub fn row_index_for_key(
    dataset_id: &str,
    dataset: &TableDatasetV1,
    schema: &TableSchema,
    generation: u64,
    key: &StableRowKey,
) -> (out: Option<usize>)
    ensures
        opt_row(out) == first_row_with_key(
            dataset_id@,
            generation,
            *schema,
            *dataset,
            key.pair(),
            dataset.rows as nat,
        ),
        out matches Some(row) ==> row < dataset.rows,
{
    let mut row: usize = 0;
    while row < dataset.rows
        invariant
            row <= dataset.rows,
            first_row_with_key(
                dataset_id@,
                generation,
                *schema,
                *dataset,
                key.pair(),
                row as nat,
            ) is None,
        decreases dataset.rows - row,
    {
        let candidate = row_key_for_row(dataset_id, generation, schema, dataset, row);
        if candidate.same_key(key) {
            proof {
                first_row_stays(
                    dataset_id@,
                    generation,
                    *schema,
                    *dataset,
                    key.pair(),
                    (row + 1) as nat,
                    dataset.rows as nat,
                );
            }
            return Some(row);
        }
        row = row + 1;
    }
    None
}

proof fn first_row_stays(
    dataset_id: Seq<char>,
    generation: u64,
    schema: TableSchema,
    dataset: TableDatasetV1,
    key: (Seq<char>, Seq<char>),
    n: nat,
    m: nat,
)
    requires
        n <= m,
        first_row_with_key(dataset_id, generation, schema, dataset, key, n) is Some,
    ensures
        first_row_with_key(dataset_id, generation, schema, dataset, key, m) == first_row_with_key(
            dataset_id,
            generation,
            schema,
            dataset,
            key,
            n,
        ),
    decreases m,
{
    if n < m {
        first_row_stays(dataset_id, generation, schema, dataset, key, n, (m - 1) as nat);
    }
}

// ---------------------------------------------------------------------------
// Coordinates
// ---------------------------------------------------------------------------
/// The number in `row` of the column with the given id.
pub open spec fn number_at(dataset: TableDatasetV1, column_id: Seq<char>, row: int) -> Option<
    Real64,
> {
    match dataset.named(column_id) {
        Some(column) => column.numeric_at(row),
        None => None,
    }
}

fn number_for_row(dataset: &TableDatasetV1, column_id: &str, row: usize) -> (out: Option<Real64>)
    ensures
        out == number_at(*dataset, column_id@, row as int),
{
    match dataset.column(column_id) {
        Some(column) => column.numeric_value(row),
        None => None,
    }
}

/// The plane coordinates of a row.
pub open spec fn plane_point(schema: TableSchema, dataset: TableDatasetV1, row: int) -> Option<
    (Real64, Real64),
> {
    match schema.coordinate_space_2d {
        Some(space) => match (
            number_at(dataset, space.x_column@, row),
            number_at(dataset, space.y_column@, row),
        ) {
            (Some(x), Some(y)) => Some((x, y)),
            _ => None,
        },
        None => None,
    }
}

pub fn coordinate_2d_for_row(
    schema: &TableSchema,
    dataset: &TableDatasetV1,
    row: usize,
) -> (out: Option<(Real64, Real64)>)
    ensures
        out == plane_point(*schema, *dataset, row as int),
{
    match &schema.coordinate_space_2d {
        Some(space) => {
            match (
                number_for_row(dataset, space.x_column.as_str(), row),
                number_for_row(dataset, space.y_column.as_str(), row),
            ) {
                (Some(x), Some(y)) => Some((x, y)),
                _ => None,
            }
        },
        None => None,
    }
}

/// The space coordinates of a row by three named columns.
pub open spec fn space_point_by(
    dataset: TableDatasetV1,
    x: Seq<char>,
    y: Seq<char>,
    z: Seq<char>,
    row: int,
) -> Option<(Real64, Real64, Real64)> {
    match (number_at(dataset, x, row), number_at(dataset, y, row), number_at(dataset, z, row)) {
        (Some(x), Some(y), Some(z)) => Some((x, y, z)),
        _ => None,
    }
}

/// The space coordinates of a row: by the given columns, or by the schema's
/// where none are given.
pub open spec fn space_point(
    schema: TableSchema,
    dataset: TableDatasetV1,
    row: int,
    columns: Option<(Seq<char>, Seq<char>, Seq<char>)>,
) -> Option<(Real64, Real64, Real64)> {
    match columns {
        Some((x, y, z)) => space_point_by(dataset, x, y, z, row),
        None => match schema.coordinate_space_3d {
            Some(space) => space_point_by(
                dataset,
                space.x_column@,
                space.y_column@,
                space.z_column@,
                row,
            ),
            None => None,
        },
    }
}

fn space_point_for_row(dataset: &TableDatasetV1, x: &str, y: &str, z: &str, row: usize) -> (out:
    Option<(Real64, Real64, Real64)>)
    ensures
        out == space_point_by(*dataset, x@, y@, z@, row as int),
{
    match (
        number_for_row(dataset, x, row),
        number_for_row(dataset, y, row),
        number_for_row(dataset, z, row),
    ) {
        (Some(x), Some(y), Some(z)) => Some((x, y, z)),
        _ => None,
    }
}

pub fn coordinate_3d_for_row(
    schema: &TableSchema,
    dataset: &TableDatasetV1,
    row: usize,
    columns: Option<(&str, &str, &str)>,
) -> (out: Option<(Real64, Real64, Real64)>)
    ensures
        out == space_point(
            *schema,
            *dataset,
            row as int,
            match columns {
                Some((x, y, z)) => Some((x@, y@, z@)),
                None => None,
            },
        ),
{
    match columns {
        Some((x, y, z)) => space_point_for_row(dataset, x, y, z, row),
        None => match &schema.coordinate_space_3d {
            Some(space) => space_point_for_row(
                dataset,
                space.x_column.as_str(),
                space.y_column.as_str(),
                space.z_column.as_str(),
                row,
            ),
            None => None,
        },
    }
}

// ---------------------------------------------------------------------------
// Regions of interest
// ---------------------------------------------------------------------------
/// A rectangle of sensor pixels.
#[derive(Debug, Clone, Copy, PartialEq, Eq, Structural)]
pub struct RoiConfig {
    pub x: u16,
    pub y: u16,
    pub width: u16,
    pub height: u16,
}

impl RoiConfig {
    /// The last pixel column of the rectangle.
    pub open spec fn last_x(self) -> int {
        last_covered(self.x, self.width)
    }

    /// The last pixel row of the rectangle.
    pub open spec fn last_y(self) -> int {
        last_covered(self.y, self.height)
    }
}

/// The last of `count` pixels from `first` on, at most the last pixel that
/// can be numbered. An empty run counts as one pixel.
pub open spec fn last_covered(first: u16, count: u16) -> int {
    let last = first + (if count == 0 {
        0int
    } else {
        count - 1
    });
    if last > u16::MAX {
        u16::MAX as int
    } else {
        last
    }
}

/// The rectangle that linked tables and views are restricted to.
#[derive(Debug, Clone, Copy, PartialEq, Eq, Structural)]
pub struct AnalysisRoi {
    pub x_min: Real64,
    pub x_max: Real64,
    pub y_min: Real64,
    pub y_max: Real64,
}

impl AnalysisRoi {
    /// Whether a point lies in the rectangle, its edges included.
    pub open spec fn covers(self, x: Real64, y: Real64) -> bool {
        self.x_min.le(x) && x.le(self.x_max) && self.y_min.le(y) && y.le(self.y_max)
    }

    pub fn contains(&self, x: Real64, y: Real64) -> (out: bool)
        ensures
            out == self.covers(x, y),
    {
        self.x_min.at_most(x) && x.at_most(self.x_max) && self.y_min.at_most(y) && y.at_most(
            self.y_max,
        )
    }

    /// The rectangle from the first to the last pixel of a sensor region.
    pub fn from_sensor_roi(roi: RoiConfig) -> (out: Self)
        ensures
            out == sensor_area(roi),
            out.x_min.is_whole(roi.x as nat),
            out.x_max.is_whole(roi.last_x() as nat),
            out.y_min.is_whole(roi.y as nat),
            out.y_max.is_whole(roi.last_y() as nat),
    {
        AnalysisRoi {
            x_min: Real64::from_u16(roi.x),
            x_max: Real64::from_u16(roi.x.saturating_add(roi.width.saturating_sub(1))),
            y_min: Real64::from_u16(roi.y),
            y_max: Real64::from_u16(roi.y.saturating_add(roi.height.saturating_sub(1))),
        }
    }
}

/// The rectangle from the first to the last pixel of a sensor region.
pub open spec fn sensor_area(roi: RoiConfig) -> AnalysisRoi {
    AnalysisRoi {
        x_min: whole(roi.x as nat),
        x_max: whole(roi.last_x() as nat),
        y_min: whole(roi.y as nat),
        y_max: whole(roi.last_y() as nat),
    }
}

/// A rectangle made from a sensor region holds exactly the pixels of the
/// region, its last column and row included.
pub proof fn sensor_region_holds_its_pixels(
    roi: RoiConfig,
    area: AnalysisRoi,
    px: nat,
    x: Real64,
    py: nat,
    y: Real64,
)
    requires
        area.x_min.is_whole(roi.x as nat),
        area.x_max.is_whole(roi.last_x() as nat),
        area.y_min.is_whole(roi.y as nat),
        area.y_max.is_whole(roi.last_y() as nat),
        x.is_whole(px),
        y.is_whole(py),
    ensures
        area.covers(x, y) <==> (roi.x <= px <= roi.last_x() && roi.y <= py <= roi.last_y()),
{
    whole_numbers_keep_order(area.x_min, roi.x as nat, x, px);
    whole_numbers_keep_order(x, px, area.x_max, roi.last_x() as nat);
    whole_numbers_keep_order(area.y_min, roi.y as nat, y, py);
    whole_numbers_keep_order(y, py, area.y_max, roi.last_y() as nat);
}

/// Whether a row is inside the region: rows without coordinates always are.
pub open spec fn row_in_roi(
    roi: Option<AnalysisRoi>,
    schema: TableSchema,
    dataset: TableDatasetV1,
    row: int,
) -> bool {
    match roi {
        None => true,
        Some(area) => match plane_point(schema, dataset, row) {
            None => true,
            Some((x, y)) => area.covers(x, y),
        },
    }
}

pub fn row_matches_roi(
    roi: Option<&AnalysisRoi>,
    schema: &TableSchema,
    dataset: &TableDatasetV1,
    row: usize,
) -> (out: bool)
    ensures
        out == row_in_roi(
            match roi {
                Some(area) => Some(*area),
                None => None,
            },
            *schema,
            *dataset,
            row as int,
        ),
{
    match roi {
        None => true,
        Some(area) => match coordinate_2d_for_row(schema, dataset, row) {
            None => true,
            Some((x, y)) => area.contains(x, y),
        },
    }
}

/// Whether the time span of a row touches a window; rows without a span
/// always do.
pub open spec fn row_in_span(dataset: TableDatasetV1, window: (u64, u64), row: int) -> bool {
    match dataset.span_at(row) {
        Some((start, end)) => start <= window.1 && end >= window.0,
        None => true,
    }
}

/// The rows whose time span touches the window.
pub open spec fn in_window(table: TableDatasetV1, window: (u64, u64), rows: Seq<usize>) -> Seq<
    usize,
> {
    rows.filter(|row: usize| row_in_span(table, window, row as int))
}

/// Keeps the rows whose time span overlaps the given frame window. Rows
/// without a span are kept, so that datasets that declare no provenance stay
/// visible.
pub fn retain_rows_in_frame_span(
    rows: Vec<usize>,
    dataset: &TableDatasetV1,
    window: (u64, u64),
) -> (out: Vec<usize>)
    ensures
        out@ == in_window(*dataset, window, rows@),
{
    let mut out: Vec<usize> = Vec::new();
    let ghost keep = |row: usize| row_in_span(*dataset, window, row as int);
    let mut i: usize = 0;
    proof {
        reveal(Seq::filter);
        assert(rows@.take(0).filter(keep) =~= Seq::<usize>::empty());
    }
    while i < rows.len()
        invariant
            i <= rows@.len(),
            keep == (|row: usize| row_in_span(*dataset, window, row as int)),
            out@ == rows@.take(i as int).filter(keep),
        decreases rows@.len() - i,
    {
        proof {
            reveal(Seq::filter);
            assert(rows@.take(i + 1).drop_last() =~= rows@.take(i as int));
        }
        let touches = match dataset.row_span_us(rows[i]) {
            Some((start, end)) => start <= window.1 && end >= window.0,
            None => true,
        };
        if touches {
            out.push(rows[i]);
        }
        i = i + 1;
    }
    assert(rows@.take(rows@.len() as int) =~= rows@);
    out
}

/// The rows below `n` that are inside the region, in order.
pub open spec fn rows_in_roi(
    roi: Option<AnalysisRoi>,
    schema: TableSchema,
    dataset: TableDatasetV1,
    n: nat,
) -> Seq<usize>
    decreases n,
{
    if n == 0 {
        Seq::empty()
    } else {
        let rest = rows_in_roi(roi, schema, dataset, (n - 1) as nat);
        if row_in_roi(roi, schema, dataset, n - 1) {
            rest.push((n - 1) as usize)
        } else {
            rest
        }
    }
}

pub fn rows_matching_roi(
    roi: Option<&AnalysisRoi>,
    schema: &TableSchema,
    dataset: &TableDatasetV1,
) -> (out: Vec<usize>)
    ensures
        out@ == rows_in_roi(
            match roi {
                Some(area) => Some(*area),
                None => None,
            },
            *schema,
            *dataset,
            dataset.rows as nat,
        ),
{
    let mut out: Vec<usize> = Vec::new();
    let mut row: usize = 0;
    while row < dataset.rows
        invariant
            row <= dataset.rows,
            out@ == rows_in_roi(
                match roi {
                    Some(area) => Some(*area),
                    None => None,
                },
                *schema,
                *dataset,
                row as nat,
            ),
        decreases dataset.rows - row,
    {
        if row_matches_roi(roi, schema, dataset, row) {
            out.push(row);
        }
        row = row + 1;
    }
    out
}

/// The rows inside a region are listed in increasing order.
pub proof fn rows_in_roi_increase(
    roi: Option<AnalysisRoi>,
    schema: TableSchema,
    dataset: TableDatasetV1,
    n: nat,
)
    requires
        n <= usize::MAX,
    ensures
        ({
            let rows = rows_in_roi(roi, schema, dataset, n);
            &&& forall|i: int, j: int| 0 <= i < j < rows.len() ==> #[trigger] rows[i] < #[trigger] rows[j]
            &&& forall|i: int| 0 <= i < rows.len() ==> #[trigger] rows[i] < n
        }),
    decreases n,
{
    if n > 0 {
        rows_in_roi_increase(roi, schema, dataset, (n - 1) as nat);
        let rest = rows_in_roi(roi, schema, dataset, (n - 1) as nat);
        let rows = rows_in_roi(roi, schema, dataset, n);
        assert(forall|i: int| 0 <= i < rest.len() ==> rows[i] == #[trigger] rest[i]);
        assert forall|i: int, j: int| 0 <= i < j < rows.len() implies #[trigger] rows[i]
            < #[trigger] rows[j] by {
            assert(rest[i] < n - 1);
            if j < rest.len() {
                assert(rest[i] < rest[j]);
            }
        }
        assert forall|i: int| 0 <= i < rows.len() implies #[trigger] rows[i] < n by {
            if i < rest.len() {
                assert(rest[i] < n - 1);
            }
        }
    }
}

// ---------------------------------------------------------------------------
// Sorting
// ---------------------------------------------------------------------------
#[derive(Debug, Clone, Copy, PartialEq, Eq, Structural)]
pub enum InvestigationSortDirection {
    Ascending,
    Descending,
}

impl InvestigationSortDirection {
    pub open spec fn flipped(self) -> Self {
        match self {
            InvestigationSortDirection::Ascending => InvestigationSortDirection::Descending,
            InvestigationSortDirection::Descending => InvestigationSortDirection::Ascending,
        }
    }

    pub fn toggled(self) -> (out: Self)
        ensures
            out == self.flipped(),
            out != self,
    {
        match self {
            InvestigationSortDirection::Ascending => InvestigationSortDirection::Descending,
            InvestigationSortDirection::Descending => InvestigationSortDirection::Ascending,
        }
    }
}

/// Flipping the direction twice gives it back.
pub proof fn flipping_twice_restores(direction: InvestigationSortDirection)
    ensures
        direction.flipped().flipped() == direction,
{
}

/// Whether the cell of row `a` comes before the cell of row `b`. A row without
/// a cell comes before the rows with one; a NaN is neither before nor after a
/// number.
pub open spec fn cell_less(values: TableColumnValues, a: int, b: int) -> bool {
    match values {
        TableColumnValues::U64(v) => 0 <= b < v@.len() && (!(0 <= a < v@.len()) || v@[a] < v@[b]),
        TableColumnValues::I64(v) => 0 <= b < v@.len() && (!(0 <= a < v@.len()) || v@[a] < v@[b]),
        TableColumnValues::F64(v) => 0 <= b < v@.len() && (!(0 <= a < v@.len())
            || v@[a].value.lt(v@[b].value)),
        TableColumnValues::String(v) => 0 <= b < v@.len() && (!(0 <= a < v@.len()) || text_less(
            v@[a]@,
            v@[b]@,
        )),
        TableColumnValues::Bool(v) => 0 <= b < v@.len() && (!(0 <= a < v@.len()) || (!v@[a]
            && v@[b])),
    }
}

fn cell_comes_before(values: &TableColumnValues, a: usize, b: usize) -> (out: bool)
    ensures
        out == cell_less(*values, a as int, b as int),
{
    match values {
        TableColumnValues::U64(v) => b < v.len() && (a >= v.len() || v[a] < v[b]),
        TableColumnValues::I64(v) => b < v.len() && (a >= v.len() || v[a] < v[b]),
        TableColumnValues::F64(v) => b < v.len() && (a >= v.len() || v[a].value.less(v[b].value)),
        TableColumnValues::String(v) => b < v.len() && (a >= v.len() || less_text(
            v[a].as_str(),
            v[b].as_str(),
        )),
        TableColumnValues::Bool(v) => b < v.len() && (a >= v.len() || (!v[a] && v[b])),
    }
}

/// Whether the cells of a column can all be compared: no NaN among them.
pub open spec fn comparable(values: TableColumnValues) -> bool {
    values matches TableColumnValues::F64(v) ==> forall|i: int|
        0 <= i < v@.len() ==> !(#[trigger] v@[i]).value.is_nan()
}

/// Whether row `a` is listed before row `b`: by the cells of the column in the
/// given direction, and in the order of the table among equal cells.
pub open spec fn listed_before(
    values: TableColumnValues,
    direction: InvestigationSortDirection,
    a: int,
    b: int,
) -> bool {
    let before = match direction {
        InvestigationSortDirection::Ascending => cell_less(values, a, b),
        InvestigationSortDirection::Descending => cell_less(values, b, a),
    };
    let after = match direction {
        InvestigationSortDirection::Ascending => cell_less(values, b, a),
        InvestigationSortDirection::Descending => cell_less(values, a, b),
    };
    before || (!after && a < b)
}

fn row_listed_before(
    values: &TableColumnValues,
    direction: InvestigationSortDirection,
    a: usize,
    b: usize,
) -> (out: bool)
    ensures
        out == listed_before(*values, direction, a as int, b as int),
{
    let (before, after) = match direction {
        InvestigationSortDirection::Ascending => (
            cell_comes_before(values, a, b),
            cell_comes_before(values, b, a),
        ),
        InvestigationSortDirection::Descending => (
            cell_comes_before(values, b, a),
            cell_comes_before(values, a, b),
        ),
    };
    before || (!after && a < b)
}

/// Cells that are not before one another in two steps are not so in one.
proof fn cell_less_weak_order(values: TableColumnValues, a: int, b: int, c: int)
    requires
        comparable(values),
    ensures
        !cell_less(values, a, a),
        cell_less(values, a, b) && cell_less(values, b, c) ==> cell_less(values, a, c),
        cell_less(values, a, c) ==> cell_less(values, a, b) || cell_less(values, b, c),
        !(cell_less(values, a, b) && cell_less(values, b, a)),
{
    match values {
        TableColumnValues::String(v) => {
            let n = v@.len() as int;
            if 0 <= a < n {
                text_less_irreflexive(v@[a]@);
            }
            if 0 <= a < n && 0 <= b < n {
                if text_less(v@[a]@, v@[b]@) && text_less(v@[b]@, v@[a]@) {
                    text_less_transitive(v@[a]@, v@[b]@, v@[a]@);
                }
                if 0 <= c < n {
                    if text_less(v@[a]@, v@[b]@) && text_less(v@[b]@, v@[c]@) {
                        text_less_transitive(v@[a]@, v@[b]@, v@[c]@);
                    }
                    if text_less(v@[a]@, v@[c]@) && !text_less(v@[a]@, v@[b]@) {
                        if v@[a]@ != v@[b]@ {
                            text_less_total(v@[a]@, v@[b]@);
                            text_less_transitive(v@[b]@, v@[a]@, v@[c]@);
                        }
                    }
                }
            }
        },
        _ => {},
    }
}

/// The order of listing is total and transitive where the cells can be
/// compared.
pub proof fn listing_is_an_order(
    values: TableColumnValues,
    direction: InvestigationSortDirection,
    a: int,
    b: int,
    c: int,
)
    requires
        comparable(values),
    ensures
        !listed_before(values, direction, a, a),
        a != b ==> listed_before(values, direction, a, b) || listed_before(values, direction, b, a),
        listed_before(values, direction, a, b) && listed_before(values, direction, b, c)
            ==> listed_before(values, direction, a, c),
{
    cell_less_weak_order(values, a, b, c);
    cell_less_weak_order(values, b, c, a);
    cell_less_weak_order(values, c, a, b);
    cell_less_weak_order(values, c, b, a);
    cell_less_weak_order(values, b, a, c);
    cell_less_weak_order(values, a, c, b);
}

/// Rows that stand in the order of listing.
pub open spec fn in_listing_order(
    values: TableColumnValues,
    direction: InvestigationSortDirection,
    rows: Seq<usize>,
) -> bool {
    forall|i: int, j: int|
        0 <= i < j < rows.len() ==> listed_before(
            values,
            direction,
            (#[trigger] rows[i]) as int,
            (#[trigger] rows[j]) as int,
        )
}

/// There is one way only to list given rows in the order of a column.
pub proof fn listing_is_unique(
    values: TableColumnValues,
    direction: InvestigationSortDirection,
    a: Seq<usize>,
    b: Seq<usize>,
)
    requires
        comparable(values),
        in_listing_order(values, direction, a),
        in_listing_order(values, direction, b),
        a.to_multiset() == b.to_multiset(),
    ensures
        a == b,
{
    let leq = |x: usize, y: usize| x == y || listed_before(values, direction, x as int, y as int);
    assert(vstd::relations::total_ordering(leq)) by {
        assert forall|x: usize, y: usize, z: usize| #[trigger]
            leq(x, y) && #[trigger] leq(y, z) implies leq(x, z) by {
            listing_is_an_order(values, direction, x as int, y as int, z as int);
        }
        assert forall|x: usize, y: usize| #[trigger]
            leq(x, y) && #[trigger] leq(y, x) implies x == y by {
            listing_is_an_order(values, direction, x as int, y as int, x as int);
        }
        assert forall|x: usize, y: usize| #[trigger] leq(x, y) || #[trigger] leq(y, x) by {
            listing_is_an_order(values, direction, x as int, y as int, x as int);
        }
    }
    assert(vstd::relations::sorted_by(a, leq));
    assert(vstd::relations::sorted_by(b, leq));
    vstd::seq_lib::lemma_sorted_unique(a, b, leq);
}

/// No row stands twice in a list.
pub open spec fn rows_distinct(rows: Seq<usize>) -> bool {
    forall|i: int, j: int| 0 <= i < j < rows.len() ==> #[trigger] rows[i] != #[trigger] rows[j]
}

/// Sorts rows by a column, keeping the order of the table among equal cells.
pub fn sort_rows(
    values: &TableColumnValues,
    direction: InvestigationSortDirection,
    rows: Vec<usize>,
) -> (out: Vec<usize>)
    requires
        rows_distinct(rows@),
    ensures
        out@.to_multiset() == rows@.to_multiset(),
        comparable(*values) ==> in_listing_order(*values, direction, out@),
    decreases rows@.len(),
{
    let n: usize = rows.len();
    if n <= 1 {
        return rows;
    }
    let mid: usize = n / 2;
    let ghost all = rows@;
    let mut left: Vec<usize> = Vec::new();
    let mut right: Vec<usize> = Vec::new();
    let mut i: usize = 0;
    while i < n
        invariant
            n == rows@.len(),
            rows@ == all,
            0 < mid < n,
            i <= n,
            left@ == all.take(if i < mid { i as int } else { mid as int }),
            right@ == (if i < mid { Seq::<usize>::empty() } else { all.subrange(mid as int, i as int) }),
        decreases n - i,
    {
        if i < mid {
            left.push(rows[i]);
            assert(all.take(i + 1) =~= all.take(i as int).push(all[i as int]));
            if i + 1 == mid {
                assert(all.subrange(mid as int, i + 1) =~= Seq::<usize>::empty());
            }
        } else {
            right.push(rows[i]);
            assert(all.subrange(mid as int, i + 1) =~= all.subrange(mid as int, i as int).push(
                all[i as int],
            ));
        }
        i = i + 1;
    }
    proof {
        assert(all =~= left@ + right@);
        vstd::seq_lib::lemma_multiset_commutative(left@, right@);
    }
    let ghost left_in = left@;
    let ghost right_in = right@;
    let left = sort_rows(values, direction, left);
    let right = sort_rows(values, direction, right);
    proof {
        assert forall|a: int, b: int| 0 <= a < left@.len() && 0 <= b < right@.len() implies left@[a]
            != right@[b] by {
            broadcast use vstd::seq_lib::group_to_multiset_ensures;
            assert(left@.contains(left@[a]));
            assert(left_in.to_multiset().count(left@[a]) > 0);
            assert(left_in.contains(left@[a]));
            let p = choose|p: int| 0 <= p < left_in.len() && left_in[p] == left@[a];
            assert(right@.contains(right@[b]));
            assert(right_in.to_multiset().count(right@[b]) > 0);
            assert(right_in.contains(right@[b]));
            let q = choose|q: int| 0 <= q < right_in.len() && right_in[q] == right@[b];
            assert(all[p] == left_in[p]);
            assert(all[mid + q] == right_in[q]);
        }
    }
    merge_rows(values, direction, left, right)
}

fn merge_rows(
    values: &TableColumnValues,
    direction: InvestigationSortDirection,
    left: Vec<usize>,
    right: Vec<usize>,
) -> (out: Vec<usize>)
    requires
        comparable(*values) ==> in_listing_order(*values, direction, left@),
        comparable(*values) ==> in_listing_order(*values, direction, right@),
        forall|a: int, b: int|
            0 <= a < left@.len() && 0 <= b < right@.len() ==> #[trigger] left@[a] != #[trigger] right@[b],
    ensures
        out@.to_multiset() == left@.to_multiset().add(right@.to_multiset()),
        comparable(*values) ==> in_listing_order(*values, direction, out@),
{
    let mut out: Vec<usize> = Vec::new();
    let mut i: usize = 0;
    let mut j: usize = 0;
    proof {
        assert(left@.take(0) =~= Seq::<usize>::empty());
        assert(right@.take(0) =~= Seq::<usize>::empty());
        vstd::seq_lib::lemma_multiset_commutative(left@.take(0), right@.take(0));
        assert(out@ =~= left@.take(0) + right@.take(0));
    }
    while i < left.len() || j < right.len()
        invariant
            i <= left@.len(),
            j <= right@.len(),
            comparable(*values) ==> in_listing_order(*values, direction, left@),
            comparable(*values) ==> in_listing_order(*values, direction, right@),
            forall|a: int, b: int|
                0 <= a < left@.len() && 0 <= b < right@.len() ==> #[trigger] left@[a]
                    != #[trigger] right@[b],
            out@.to_multiset() == left@.take(i as int).to_multiset().add(
                right@.take(j as int).to_multiset(),
            ),
            comparable(*values) ==> in_listing_order(*values, direction, out@),
            comparable(*values) ==> forall|k: int, a: int|
                0 <= k < out@.len() && i <= a < left@.len() ==> listed_before(
                    *values,
                    direction,
                    (#[trigger] out@[k]) as int,
                    (#[trigger] left@[a]) as int,
                ),
            comparable(*values) ==> forall|k: int, b: int|
                0 <= k < out@.len() && j <= b < right@.len() ==> listed_before(
                    *values,
                    direction,
                    (#[trigger] out@[k]) as int,
                    (#[trigger] right@[b]) as int,
                ),
        decreases left@.len() - i + right@.len() - j,
    {
        let take_left = if i >= left.len() {
            false
        } else if j >= right.len() {
            true
        } else {
            row_listed_before(values, direction, left[i], right[j])
        };
        let ghost before = out@;
        if take_left {
            out.push(left[i]);
            proof {
                let x = left@[i as int];
                assert(left@.take(i + 1) =~= left@.take(i as int).push(x));
                broadcast use vstd::seq_lib::group_to_multiset_ensures;
                assert(out@.to_multiset() =~= left@.take(i + 1).to_multiset().add(
                    right@.take(j as int).to_multiset(),
                ));
                if comparable(*values) && j < right@.len() {
                    assert forall|b: int| j <= b < right@.len() implies listed_before(
                        *values,
                        direction,
                        x as int,
                        (#[trigger] right@[b]) as int,
                    ) by {
                        listing_is_an_order(
                            *values,
                            direction,
                            x as int,
                            right@[j as int] as int,
                            right@[b] as int,
                        );
                    }
                }
            }
            i = i + 1;
        } else {
            out.push(right[j]);
            proof {
                let x = right@[j as int];
                assert(right@.take(j + 1) =~= right@.take(j as int).push(x));
                broadcast use vstd::seq_lib::group_to_multiset_ensures;
                assert(out@.to_multiset() =~= left@.take(i as int).to_multiset().add(
                    right@.take(j + 1).to_multiset(),
                ));
                if comparable(*values) && i < left@.len() {
                    assert forall|a: int| i <= a < left@.len() implies listed_before(
                        *values,
                        direction,
                        x as int,
                        (#[trigger] left@[a]) as int,
                    ) by {
                        listing_is_an_order(
                            *values,
                            direction,
                            x as int,
                            left@[i as int] as int,
                            left@[a] as int,
                        );
                        listing_is_an_order(
                            *values,
                            direction,
                            left@[i as int] as int,
                            x as int,
                            left@[i as int] as int,
                        );
                        assert(left@[i as int] != right@[j as int]);
                    }
                }
            }
            j = j + 1;
        }
    }
    assert(left@.take(left@.len() as int) =~= left@);
    assert(right@.take(right@.len() as int) =~= right@);
    out
}

/// Whether two texts begin with the same `k` characters.
pub open spec fn start_alike(a: Seq<char>, b: Seq<char>, k: int) -> bool {
    &&& 0 <= k <= a.len()
    &&& k <= b.len()
    &&& forall|c: int| 0 <= c < k ==> a[c] == b[c]
}

/// Rows that are sorted by a column stand by what its cells hold: in ascending
/// order no cell is above a later one, in descending order none is below. Rows
/// without a cell are the lowest, and rows with equal cells stay in the order
/// of the table.
pub proof fn rows_are_listed_by_their_values(
    values: TableColumnValues,
    direction: InvestigationSortDirection,
    rows: Seq<usize>,
    i: int,
    j: int,
    low: int,
    high: int,
)
    requires
        comparable(values),
        in_listing_order(values, direction, rows),
        0 <= i < j < rows.len(),
        direction is Ascending ==> low == rows[i] && high == rows[j],
        direction is Descending ==> low == rows[j] && high == rows[i],
    ensures
        match values {
            TableColumnValues::U64(v) => {
                &&& low < v@.len() ==> high < v@.len() && v@[low] <= v@[high]
                &&& low < v@.len() && v@[low] == v@[high] ==> rows[i] < rows[j]
                &&& high >= v@.len() ==> rows[i] < rows[j]
            },
            TableColumnValues::I64(v) => {
                &&& low < v@.len() ==> high < v@.len() && v@[low] <= v@[high]
                &&& low < v@.len() && v@[low] == v@[high] ==> rows[i] < rows[j]
                &&& high >= v@.len() ==> rows[i] < rows[j]
            },
            TableColumnValues::F64(v) => {
                &&& low < v@.len() ==> high < v@.len() && v@[low].value.le(v@[high].value)
                &&& low < v@.len() && v@[low].value == v@[high].value ==> rows[i] < rows[j]
                &&& high >= v@.len() ==> rows[i] < rows[j]
            },
            TableColumnValues::Bool(v) => {
                &&& low < v@.len() ==> high < v@.len() && (v@[low] ==> v@[high])
                &&& low < v@.len() && v@[low] == v@[high] ==> rows[i] < rows[j]
                &&& high >= v@.len() ==> rows[i] < rows[j]
            },
            TableColumnValues::String(v) => {
                &&& low < v@.len() ==> high < v@.len()
                &&& low < v@.len() && v@[low]@ == v@[high]@ ==> rows[i] < rows[j]
                &&& low < v@.len() && v@[low]@ != v@[high]@ ==> exists|k: int| #[trigger]
                    start_alike(v@[low]@, v@[high]@, k) && k < v@[high]@.len() && (k
                        < v@[low]@.len() ==> v@[low]@[k] < v@[high]@[k])
                &&& high >= v@.len() ==> rows[i] < rows[j]
            },
        },
{
    assert(listed_before(values, direction, rows[i] as int, rows[j] as int));
    if let TableColumnValues::String(v) = values {
        if low < v@.len() && high < v@.len() {
            let a = v@[low]@;
            let b = v@[high]@;
            text_less_irreflexive(a);
            if a != b {
                text_less_total(a, b);
                let k = first_difference(a, b);
                if k < b.len() {
                    if k < a.len() && b[k] < a[k] {
                        texts_are_ordered_by_the_first_difference(b, a, k);
                    }
                } else {
                    texts_are_ordered_by_the_first_difference(b, a, k);
                }
                assert(start_alike(a, b, k) && k < b.len() && (k < a.len() ==> a[k] < b[k]));
            }
        }
    }
}

/// How many characters two different texts have in common.
proof fn first_difference(a: Seq<char>, b: Seq<char>) -> (k: int)
    requires
        a != b,
    ensures
        0 <= k <= a.len(),
        k <= b.len(),
        k < a.len() || k < b.len(),
        forall|c: int| 0 <= c < k ==> a[c] == b[c],
        k < a.len() && k < b.len() ==> a[k] != b[k],
    decreases a.len(),
{
    if a.len() == 0 || b.len() == 0 || a[0] != b[0] {
        if a.len() == 0 && b.len() == 0 {
            assert(a =~= b);
        }
        0
    } else {
        let p = a.drop_first();
        let q = b.drop_first();
        if p == q {
            assert(a =~= seq![a[0]] + p);
            assert(b =~= seq![b[0]] + q);
        }
        let k = first_difference(p, q);
        assert forall|c: int| 0 <= c < k + 1 implies a[c] == b[c] by {
            if c > 0 {
                assert(p[c - 1] == q[c - 1]);
            }
        }
        k + 1
    }
}

/// The rows of a region are those below `n` that lie in it, whatever has no
/// place in the plane included, each one once.
pub proof fn rows_in_roi_are_those_inside(
    roi: Option<AnalysisRoi>,
    schema: TableSchema,
    dataset: TableDatasetV1,
    n: nat,
    row: usize,
)
    requires
        n <= usize::MAX,
    ensures
        rows_in_roi(roi, schema, dataset, n).contains(row) <==> row < n && (roi matches Some(area)
            ==> (schema.coordinate_space_2d matches Some(space) ==> ({
            let x = number_at(dataset, space.x_column@, row as int);
            let y = number_at(dataset, space.y_column@, row as int);
            x is Some && y is Some ==> area.x_min.le(x->0) && x->0.le(area.x_max) && area.y_min.le(
                y->0,
            ) && y->0.le(area.y_max)
        }))),
    decreases n,
{
    if n > 0 {
        rows_in_roi_are_those_inside(roi, schema, dataset, (n - 1) as nat, row);
        rows_in_roi_increase(roi, schema, dataset, n);
        let rest = rows_in_roi(roi, schema, dataset, (n - 1) as nat);
        let rows = rows_in_roi(roi, schema, dataset, n);
        if rest.contains(row) {
            let k = choose|k: int| 0 <= k < rest.len() && rest[k] == row;
            assert(rows[k] == row);
        }
        if rows.contains(row) {
            let k = choose|k: int| 0 <= k < rows.len() && rows[k] == row;
            if k < rest.len() {
                assert(rest[k] == row);
            }
        }
        if row_in_roi(roi, schema, dataset, n - 1) {
            assert(rows[rest.len() as int] == (n - 1) as usize);
        }
    }
}

/// The number of a cell is the one that the first column of that name holds in
/// that row.
pub proof fn number_stands_in_its_column(
    dataset: TableDatasetV1,
    column_id: Seq<char>,
    row: int,
    c: int,
)
    requires
        0 <= c < dataset.columns@.len(),
        dataset.columns@[c].column_id@ == column_id,
        forall|k: int| 0 <= k < c ==> (#[trigger] dataset.columns@[k]).column_id@ != column_id,
        0 <= row < dataset.columns@[c].numeric@.len(),
    ensures
        number_at(dataset, column_id, row) == dataset.columns@[c].numeric@[row],
        dataset.named(column_id) == Some(dataset.columns@[c]),
{
    column_is_the_first_of_its_name(dataset.columns@, column_id);
}

/// The rows whose time span touches the window, and those without a span, stay
/// in their order.
pub proof fn rows_in_window_touch_it(
    table: TableDatasetV1,
    window: (u64, u64),
    rows: Seq<usize>,
    row: usize,
)
    requires
        row < table.spans@.len(),
    ensures
        in_window(table, window, rows).contains(row) <==> rows.contains(row) && (table.spans@[
        row as int] matches Some(span) ==> span.0 <= window.1 && window.0 <= span.1),
{
    let keep = |r: usize| row_in_span(table, window, r as int);
    filtered_list_holds(rows, keep, row);
}

/// A cell is written as what it holds: a text as it is, a whole number by
/// digits that read as the number, a truth value by its word.
pub proof fn cells_are_written_as_they_are(values: TableColumnValues, row: int)
    ensures
        match values {
            TableColumnValues::U64(v) => {
                &&& 0 <= row < v@.len() ==> (cell_text(values, row) matches Some(text)
                    && decimal_value(text) == v@[row] && stable_id(values, row) == Some(text))
                &&& row >= v@.len() ==> cell_text(values, row) is None && stable_id(values, row)
                    is None
            },
            TableColumnValues::I64(v) => {
                &&& row >= v@.len() ==> cell_text(values, row) is None && stable_id(values, row)
                    is None
                &&& 0 <= row < v@.len() && v@[row] >= 0 ==> (cell_text(values, row) matches Some(
                    text,
                ) && decimal_value(text) == v@[row] && stable_id(values, row) == Some(text))
                &&& 0 <= row < v@.len() && v@[row] < 0 ==> (cell_text(values, row) matches Some(
                    text,
                ) && text[0] == '-' && decimal_value(text.skip(1)) == -v@[row] && stable_id(
                    values,
                    row,
                ) == Some(text))
            },
            TableColumnValues::String(v) => {
                &&& 0 <= row < v@.len() ==> cell_text(values, row) == Some(v@[row]@) && stable_id(
                    values,
                    row,
                ) == Some(v@[row]@)
                &&& row >= v@.len() ==> cell_text(values, row) is None && stable_id(values, row)
                    is None
            },
            TableColumnValues::Bool(v) => {
                &&& row >= v@.len() ==> cell_text(values, row) is None
                &&& 0 <= row < v@.len() && v@[row] ==> cell_text(values, row) == Some("true"@)
                &&& 0 <= row < v@.len() && !v@[row] ==> cell_text(values, row) == Some("false"@)
                &&& stable_id(values, row) is None
            },
            TableColumnValues::F64(v) => {
                &&& row >= v@.len() ==> cell_text(values, row) is None
                &&& 0 <= row < v@.len() ==> cell_text(values, row) == Some(
                    shortest_text(v@[row].value),
                )
                &&& stable_id(values, row) is None
            },
        },
{
    match values {
        TableColumnValues::U64(v) => if 0 <= row < v@.len() {
            decimal_round_trip(v@[row] as nat);
        },
        TableColumnValues::I64(v) => if 0 <= row < v@.len() {
            if v@[row] < 0 {
                decimals_have_no_zero_in_front((-(v@[row] as int)) as nat);
            } else {
                decimal_round_trip(v@[row] as nat);
            }
        },
        _ => {},
    }
}

/// The row that is found by a key is the first one that has it, and none is
/// found only where no row has it.
pub proof fn first_row_with_key_is_first(
    dataset_id: Seq<char>,
    generation: u64,
    schema: TableSchema,
    dataset: TableDatasetV1,
    key: (Seq<char>, Seq<char>),
    n: nat,
)
    ensures
        match first_row_with_key(dataset_id, generation, schema, dataset, key, n) {
            Some(row) => 0 <= row < n && row_key(dataset_id, generation, schema, dataset, row)
                == key && forall|r: int|
                0 <= r < row ==> #[trigger] row_key(dataset_id, generation, schema, dataset, r)
                    != key,
            None => forall|r: int|
                0 <= r < n ==> #[trigger] row_key(dataset_id, generation, schema, dataset, r) != key,
        },
    decreases n,
{
    if n > 0 {
        first_row_with_key_is_first(dataset_id, generation, schema, dataset, key, (n - 1) as nat);
    }
}

/// The key of a row is its dataset and the cell of the id column; where there
/// is no such cell, rows are told apart by their generation and place.
pub proof fn row_keys_name_the_row(
    dataset_id: Seq<char>,
    generation: u64,
    schema: TableSchema,
    dataset: TableDatasetV1,
    row: int,
    c: int,
)
    ensures
        row_key(dataset_id, generation, schema, dataset, row).0 == dataset_id,
        (schema.row_id_column matches Some(name) && 0 <= c < dataset.columns@.len()
            && dataset.columns@[c].column_id@ == name@ && (forall|k: int|
            0 <= k < c ==> (#[trigger] dataset.columns@[k]).column_id@ != name@) && stable_id(
            dataset.columns@[c].values,
            row,
        ) is Some) ==> row_key(dataset_id, generation, schema, dataset, row).1 == stable_id(
            dataset.columns@[c].values,
            row,
        )->0,
        schema.row_id_column is None && row >= 0 ==> row_key(
            dataset_id,
            generation,
            schema,
            dataset,
            row,
        ).1 == "gen:"@ + decimal(generation as nat) + ":row:"@ + decimal(row as nat),
{
    if let Some(name) = schema.row_id_column {
        column_is_the_first_of_its_name(dataset.columns@, name@);
    }
}

/// The last pixel of a region is as many pixels behind the first one as the
/// region is wide, less one.
pub proof fn regions_end_at_their_last_pixel(roi: RoiConfig)
    ensures
        roi.width > 0 && roi.x + roi.width - 1 <= u16::MAX ==> roi.last_x() == roi.x + roi.width
            - 1,
        roi.height > 0 && roi.y + roi.height - 1 <= u16::MAX ==> roi.last_y() == roi.y + roi.height
            - 1,
        sensor_area(roi).x_min == whole(roi.x as nat),
        sensor_area(roi).y_min == whole(roi.y as nat),
        sensor_area(roi).x_max == whole(roi.last_x() as nat),
        sensor_area(roi).y_max == whole(roi.last_y() as nat),
{
}

/// The keys of rows are ordered by their datasets first, and by their rows
/// within a dataset.
pub proof fn keys_are_ordered_by_their_datasets(a: StableRowKey, b: StableRowKey)
    ensures
        text_less(a.dataset_id@, b.dataset_id@) ==> StableRowKey::key_less(a.key(), b.key())
            && !StableRowKey::key_less(b.key(), a.key()),
        a.dataset_id@ == b.dataset_id@ && text_less(a.row_id@, b.row_id@)
            ==> StableRowKey::key_less(a.key(), b.key()),
        a.dataset_id@ == b.dataset_id@ ==> (StableRowKey::key_less(a.key(), b.key()) <==> text_less(
            a.row_id@,
            b.row_id@,
        )),
{
    text_less_irreflexive(a.dataset_id@);
    if text_less(a.dataset_id@, b.dataset_id@) && text_less(b.dataset_id@, a.dataset_id@) {
        text_less_transitive(a.dataset_id@, b.dataset_id@, a.dataset_id@);
    }
}

} // verus!
