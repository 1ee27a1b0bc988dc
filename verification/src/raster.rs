//! Views that draw numbers: scatter plots, density images, images and lines,
//! with the ranges and percentiles that they are scaled by, and the state of
//! what was drawn last.
use crate::binary32::{
    bits_to_24, from_whole, rounded_at_most, whole_32, whole_32_parts, whole_near,
    whole_numbers_keep_order_32,
};
use crate::binary64::{Real32, Real64, ONE_BITS_32};
use crate::colormap::Colormap;
use crate::dataset_cache::{Image2dV1, Series1dLine, Series1dV1};
use crate::host_data::{TableColumnData, TableDatasetV1, TableSchema};
use crate::text::{blank, decimal, is_blank, push_decimal, same_text};
use crate::rounding::{half_up, half_up_of_moved_bits};
use crate::single::{
    quotient, quotient_of, times, times_of, whole_numbers_are_calculated_exactly,
};
use vstd::arithmetic::power2::{lemma2_to64, pow2};
use vstd::prelude::*;

verus! {

// ---------------------------------------------------------------------------
// Points of a table
// ---------------------------------------------------------------------------
/// A point of a plot.
#[derive(Debug, Clone, Copy, PartialEq, Eq, Structural)]
pub struct PlotPoint {
    pub x: Real64,
    pub y: Real64,
}

/// Which columns a scatter plot shows.
#[derive(Debug, Clone, Copy)]
pub struct Scatter2dViewOptions<'a> {
    pub view_id: &'a str,
    pub x_column: &'a str,
    pub y_column: &'a str,
    pub allow_clear: bool,
}

/// The message for a column that is not there.
pub open spec fn missing_text(axis: Seq<char>, column: Seq<char>) -> Seq<char> {
    "dataset is missing "@ + axis + " column "@ + column
}

/// The message for a column with cells that are no numbers.
pub open spec fn not_numeric_text(column: Seq<char>) -> Seq<char> {
    "column "@ + column + " is not numeric"@
}

fn missing_message(axis: &str, column: &str) -> (out: String)
    ensures
        out@ == missing_text(axis@, column@),
{
    let mut out = "dataset is missing ".to_owned();
    out.append(axis);
    out.append(" column ");
    out.append(column);
    out
}

fn not_numeric_message(column: &str) -> (out: String)
    ensures
        out@ == not_numeric_text(column@),
{
    let mut out = "column ".to_owned();
    out.append(column);
    out.append(" is not numeric");
    out
}

/// The first of `n` rows in which a cell of the two columns is no number, and
/// the message for it.
pub open spec fn row_problem(
    x: TableColumnData,
    y: TableColumnData,
    names: (Seq<char>, Seq<char>),
    n: nat,
) -> Option<Seq<char>>
    decreases n,
{
    if n == 0 {
        None
    } else {
        match row_problem(x, y, names, (n - 1) as nat) {
            Some(text) => Some(text),
            None => if x.numeric_at(n - 1) is None {
                Some(not_numeric_text(names.0))
            } else if y.numeric_at(n - 1) is None {
                Some(not_numeric_text(names.1))
            } else {
                None
            },
        }
    }
}

/// Why two columns of a table cannot be plotted.
pub open spec fn plot_problem(
    dataset: TableDatasetV1,
    x_column: Seq<char>,
    y_column: Seq<char>,
) -> Option<Seq<char>> {
    match dataset.named(x_column) {
        None => Some(missing_text("x"@, x_column)),
        Some(x) => match dataset.named(y_column) {
            None => Some(missing_text("y"@, y_column)),
            Some(y) => row_problem(x, y, (x_column, y_column), dataset.rows as nat),
        },
    }
}

/// The points of two columns, one for each row.
pub fn scatter_plot_points(dataset: &TableDatasetV1, x_column: &str, y_column: &str) -> (out: Result<
    Vec<PlotPoint>,
    String,
>)
    ensures
        match out {
            Ok(points) => {
                &&& plot_problem(*dataset, x_column@, y_column@) is None
                &&& points@.len() == dataset.rows
                &&& forall|row: int|
                    0 <= row < dataset.rows ==> {
                        &&& dataset.named(x_column@)->0.numeric_at(row) == Some(
                            (#[trigger] points@[row]).x,
                        )
                        &&& dataset.named(y_column@)->0.numeric_at(row) == Some(points@[row].y)
                    }
            },
            Err(text) => plot_problem(*dataset, x_column@, y_column@) == Some(text@),
        },
{
    let x_values = match dataset.column(x_column) {
        Some(column) => column,
        None => {
            return Err(missing_message("x", x_column));
        },
    };
    let y_values = match dataset.column(y_column) {
        Some(column) => column,
        None => {
            return Err(missing_message("y", y_column));
        },
    };
    column_points(x_values, y_values, x_column, y_column, dataset.row_count())
}

proof fn problem_stays(
    x: TableColumnData,
    y: TableColumnData,
    names: (Seq<char>, Seq<char>),
    a: nat,
    b: nat,
)
    requires
        a <= b,
        row_problem(x, y, names, a) is Some,
    ensures
        row_problem(x, y, names, b) == row_problem(x, y, names, a),
    decreases b - a,
{
    if a < b {
        problem_stays(x, y, names, a, (b - 1) as nat);
    }
}

fn column_points(
    x_values: &TableColumnData,
    y_values: &TableColumnData,
    x_column: &str,
    y_column: &str,
    rows: usize,
) -> (out: Result<Vec<PlotPoint>, String>)
    ensures
        match out {
            Ok(points) => {
                &&& row_problem(*x_values, *y_values, (x_column@, y_column@), rows as nat) is None
                &&& points@.len() == rows
                &&& forall|row: int|
                    0 <= row < rows ==> {
                        &&& x_values.numeric_at(row) == Some((#[trigger] points@[row]).x)
                        &&& y_values.numeric_at(row) == Some(points@[row].y)
                    }
            },
            Err(text) => row_problem(*x_values, *y_values, (x_column@, y_column@), rows as nat)
                == Some(text@),
        },
{
    let mut points: Vec<PlotPoint> = Vec::new();
    let ghost names = (x_column@, y_column@);
    let mut row: usize = 0;
    while row < rows
        invariant
            row <= rows,
            names == (x_column@, y_column@),
            points@.len() == row,
            row_problem(*x_values, *y_values, names, row as nat) is None,
            forall|k: int|
                0 <= k < row ==> {
                    &&& x_values.numeric_at(k) == Some((#[trigger] points@[k]).x)
                    &&& y_values.numeric_at(k) == Some(points@[k].y)
                },
        decreases rows - row,
    {
        let x = match x_values.numeric_value(row) {
            Some(v) => v,
            None => {
                proof {
                    problem_stays(*x_values, *y_values, names, (row + 1) as nat, rows as nat);
                }
                return Err(not_numeric_message(x_column));
            },
        };
        let y = match y_values.numeric_value(row) {
            Some(v) => v,
            None => {
                proof {
                    problem_stays(*x_values, *y_values, names, (row + 1) as nat, rows as nat);
                }
                return Err(not_numeric_message(y_column));
            },
        };
        points.push(PlotPoint { x, y });
        row = row + 1;
    }
    Ok(points)
}

/// Whether two columns are the plane coordinates of a table, so that both axes
/// have one scale.
pub open spec fn spans_the_plane(schema: TableSchema, x_column: Seq<char>, y_column: Seq<char>) -> bool {
    schema.coordinate_space_2d matches Some(space) && space.x_column@ == x_column
        && space.y_column@ == y_column
}

pub fn has_equal_axes(schema: &TableSchema, x_column: &str, y_column: &str) -> (out: bool)
    ensures
        out == spans_the_plane(*schema, x_column@, y_column@),
{
    match &schema.coordinate_space_2d {
        Some(space) => same_text(space.x_column.as_str(), x_column) && same_text(
            space.y_column.as_str(),
            y_column,
        ),
        None => false,
    }
}

// ---------------------------------------------------------------------------
// The extent of a density image
// ---------------------------------------------------------------------------
/// The pattern of negative infinity.
pub const NEGATIVE_INFINITY_BITS: u64 = 0xfff0_0000_0000_0000;

/// The pattern of positive infinity.
pub const POSITIVE_INFINITY_BITS: u64 = 0x7ff0_0000_0000_0000;

/// The smallest number of a column; infinity where there is none.
pub open spec fn lowest(cells: Seq<Option<Real64>>) -> Real64
    decreases cells.len(),
{
    if cells.len() == 0 {
        Real64 { bits: POSITIVE_INFINITY_BITS }
    } else {
        let before = lowest(cells.drop_last());
        match cells.last() {
            Some(v) => if v.lt(before) {
                v
            } else {
                before
            },
            None => before,
        }
    }
}

/// The largest number of a column; negative infinity where there is none.
pub open spec fn highest(cells: Seq<Option<Real64>>) -> Real64
    decreases cells.len(),
{
    if cells.len() == 0 {
        Real64 { bits: NEGATIVE_INFINITY_BITS }
    } else {
        let before = highest(cells.drop_last());
        match cells.last() {
            Some(v) => if before.lt(v) {
                v
            } else {
                before
            },
            None => before,
        }
    }
}

pub open spec fn all_numeric(column: TableColumnData) -> bool {
    forall|i: int| 0 <= i < column.numeric@.len() ==> (#[trigger] column.numeric@[i]) is Some
}

/// The smallest and the largest number of a column; a column without cells has
/// none.
pub fn numeric_column_bounds(column: &TableColumnData, column_id: &str) -> (out: Result<
    Option<(Real64, Real64)>,
    String,
>)
    ensures
        match out {
            Ok(Some((low, high))) => all_numeric(*column) && column.numeric@.len() > 0 && low
                == lowest(column.numeric@) && high == highest(column.numeric@),
            Ok(None) => column.numeric@.len() == 0,
            Err(text) => !all_numeric(*column) && text@ == not_numeric_text(column_id@),
        },
{
    let mut low = Real64 { bits: POSITIVE_INFINITY_BITS };
    let mut high = Real64 { bits: NEGATIVE_INFINITY_BITS };
    let mut i: usize = 0;
    assert(column.numeric@.take(0) =~= Seq::<Option<Real64>>::empty());
    while i < column.numeric.len()
        invariant
            i <= column.numeric@.len(),
            low == lowest(column.numeric@.take(i as int)),
            high == highest(column.numeric@.take(i as int)),
            forall|k: int| 0 <= k < i ==> (#[trigger] column.numeric@[k]) is Some,
        decreases column.numeric@.len() - i,
    {
        assert(column.numeric@.take(i + 1).drop_last() =~= column.numeric@.take(i as int));
        match column.numeric[i] {
            Some(v) => {
                if v.less(low) {
                    low = v;
                }
                if high.less(v) {
                    high = v;
                }
            },
            None => {
                return Err(not_numeric_message(column_id));
            },
        }
        i = i + 1;
    }
    assert(column.numeric@.take(column.numeric@.len() as int) =~= column.numeric@);
    if i > 0 {
        Ok(Some((low, high)))
    } else {
        Ok(None)
    }
}

/// The bounds of a column hold each of its numbers.
pub proof fn bounds_hold_cells(cells: Seq<Option<Real64>>, i: int)
    requires
        0 <= i < cells.len(),
        cells[i] matches Some(v) && !v.is_nan(),
    ensures
        lowest(cells).le(cells[i]->0),
        cells[i]->0.le(highest(cells)),
    decreases cells.len(),
{
    extremes_are_numbers(cells.drop_last());
    if i < cells.len() - 1 {
        assert(cells.drop_last()[i] == cells[i]);
        bounds_hold_cells(cells.drop_last(), i);
    }
}

proof fn extremes_are_numbers(cells: Seq<Option<Real64>>)
    ensures
        !lowest(cells).is_nan(),
        !highest(cells).is_nan(),
    decreases cells.len(),
{
    if cells.len() > 0 {
        extremes_are_numbers(cells.drop_last());
    }
}

/// The plane that a density image covers.
#[derive(Debug, Clone, Copy, PartialEq, Eq, Structural)]
pub enum DensityExtent {
    Area { x_min: Real64, x_max: Real64, y_min: Real64, y_max: Real64 },
    /// There are no points: one pixel is enough.
    OnePixel,
}

/// What a density image is made of.
#[derive(Debug)]
pub struct DensityPlan {
    pub extent: DensityExtent,
    pub points: Vec<PlotPoint>,
}

/// Why a density image cannot be made: a column is missing, or, where the image
/// has to fit the points, is not numeric, or a row has no point.
pub open spec fn density_problem(
    schema: TableSchema,
    dataset: TableDatasetV1,
    x_column: Seq<char>,
    y_column: Seq<char>,
) -> Option<Seq<char>> {
    match dataset.named(x_column) {
        None => Some(missing_text("x"@, x_column)),
        Some(x) => match dataset.named(y_column) {
            None => Some(missing_text("y"@, y_column)),
            Some(y) => if !spans_the_plane(schema, x_column, y_column) && !all_numeric(x) {
                Some(not_numeric_text(x_column))
            } else if !spans_the_plane(schema, x_column, y_column) && !all_numeric(y) {
                Some(not_numeric_text(y_column))
            } else {
                row_problem(x, y, (x_column, y_column), dataset.rows as nat)
            },
        },
    }
}

/// The plane that the image covers: the one that the schema gives for these
/// columns, or else the box around the points.
pub open spec fn density_extent(
    schema: TableSchema,
    x: TableColumnData,
    y: TableColumnData,
    x_column: Seq<char>,
    y_column: Seq<char>,
) -> DensityExtent {
    if spans_the_plane(schema, x_column, y_column) {
        let space = schema.coordinate_space_2d->0;
        DensityExtent::Area {
            x_min: space.x_min,
            x_max: space.x_max,
            y_min: space.y_min,
            y_max: space.y_max,
        }
    } else if x.numeric@.len() == 0 || y.numeric@.len() == 0 {
        DensityExtent::OnePixel
    } else {
        DensityExtent::Area {
            x_min: lowest(x.numeric@),
            x_max: highest(x.numeric@),
            y_min: lowest(y.numeric@),
            y_max: highest(y.numeric@),
        }
    }
}

/// Plans a density image of two columns.
pub fn plan_density_image(
    schema: &TableSchema,
    dataset: &TableDatasetV1,
    x_column: &str,
    y_column: &str,
) -> (out: Result<DensityPlan, String>)
    ensures
        match out {
            Ok(plan) => {
                let x = dataset.named(x_column@)->0;
                let y = dataset.named(y_column@)->0;
                &&& density_problem(*schema, *dataset, x_column@, y_column@) is None
                &&& plan.extent == density_extent(*schema, x, y, x_column@, y_column@)
                &&& plan.points@.len() == dataset.rows
                &&& forall|row: int|
                    0 <= row < dataset.rows ==> {
                        &&& x.numeric_at(row) == Some((#[trigger] plan.points@[row]).x)
                        &&& y.numeric_at(row) == Some(plan.points@[row].y)
                    }
            },
            Err(text) => density_problem(*schema, *dataset, x_column@, y_column@) == Some(text@),
        },
{
    let x_values = match dataset.column(x_column) {
        Some(column) => column,
        None => {
            return Err(missing_message("x", x_column));
        },
    };
    let y_values = match dataset.column(y_column) {
        Some(column) => column,
        None => {
            return Err(missing_message("y", y_column));
        },
    };
    let mut extent = DensityExtent::OnePixel;
    if has_equal_axes(schema, x_column, y_column) {
        if let Some(space) = &schema.coordinate_space_2d {
            extent = DensityExtent::Area {
                x_min: space.x_min,
                x_max: space.x_max,
                y_min: space.y_min,
                y_max: space.y_max,
            };
        }
    } else {
        let x_bounds = match numeric_column_bounds(x_values, x_column) {
            Ok(bounds) => bounds,
            Err(text) => {
                return Err(text);
            },
        };
        let y_bounds = match numeric_column_bounds(y_values, y_column) {
            Ok(bounds) => bounds,
            Err(text) => {
                return Err(text);
            },
        };
        if let (Some((x_min, x_max)), Some((y_min, y_max))) = (x_bounds, y_bounds) {
            extent = DensityExtent::Area { x_min, x_max, y_min, y_max };
        }
    }
    match column_points(x_values, y_values, x_column, y_column, dataset.row_count()) {
        Ok(points) => Ok(DensityPlan { extent, points }),
        Err(text) => Err(text),
    }
}

// ---------------------------------------------------------------------------
// Counting points
// ---------------------------------------------------------------------------
/// The largest width and height of a density image.
pub const MAX_IMAGE_DIMENSION: usize = 8192;

/// The pixel that a point falls into, which need not be on the image.
#[derive(Debug, Clone, Copy, PartialEq, Eq, Structural)]
pub struct GridCell {
    pub x: i64,
    pub y: i64,
}

/// How many of the points fall into a pixel.
pub open spec fn hits(cells: Seq<GridCell>, x: int, y: int) -> nat
    decreases cells.len(),
{
    if cells.len() == 0 {
        0
    } else {
        hits(cells.drop_last(), x, y) + if cells.last().x == x && cells.last().y == y {
            1nat
        } else {
            0
        }
    }
}

/// A count, as far as 32 bits count.
pub open spec fn counted(n: nat) -> u32 {
    if n > u32::MAX {
        u32::MAX
    } else {
        n as u32
    }
}

/// Whether the bins hold the counts of the points for each pixel of an image.
pub open spec fn bins_count(bins: Seq<u32>, cells: Seq<GridCell>, width: int, height: int) -> bool {
    &&& bins.len() == width * height
    &&& forall|x: int, y: int|
        0 <= x < width && 0 <= y < height ==> #[trigger] bins[y * width + x] == counted(
            hits(cells, x, y),
        )
}

proof fn bin_bounds(x: int, y: int, width: int, height: int)
    requires
        0 <= x < width,
        0 <= y < height,
    ensures
        0 <= y * width + x < width * height,
{
    assert(y * width + x < width * height) by (nonlinear_arith)
        requires
            0 <= x < width,
            0 <= y < height,
    ;
    assert(0 <= y * width) by (nonlinear_arith)
        requires
            0 <= y,
            0 <= width,
    ;
}

proof fn bins_differ(x1: int, y1: int, x2: int, y2: int, width: int)
    requires
        0 <= x1 < width,
        0 <= x2 < width,
        y1 * width + x1 == y2 * width + x2,
    ensures
        x1 == x2,
        y1 == y2,
{
    assert(y1 == y2) by (nonlinear_arith)
        requires
            0 <= x1 < width,
            0 <= x2 < width,
            y1 * width + x1 == y2 * width + x2,
    ;
}

/// Counts the points of each pixel. Points that fall beside the image count
/// nowhere.
pub fn count_cells(cells: &Vec<GridCell>, width: usize, height: usize) -> (bins: Vec<u32>)
    requires
        1 <= width <= MAX_IMAGE_DIMENSION,
        1 <= height <= MAX_IMAGE_DIMENSION,
    ensures
        bins_count(bins@, cells@, width as int, height as int),
{
    proof {
        assert(width * height <= 8192 * 8192) by (nonlinear_arith)
            requires
                0 <= width <= 8192,
                0 <= height <= 8192,
        ;
    }
    let total: usize = width * height;
    let mut bins: Vec<u32> = vec![0u32; total];
    let mut i: usize = 0;
    assert(cells@.take(0) =~= Seq::<GridCell>::empty());
    proof {
        assert forall|x: int, y: int| 0 <= x < width && 0 <= y < height implies #[trigger] bins@[y
            * width + x] == counted(hits(cells@.take(0), x, y)) by {
            bin_bounds(x, y, width as int, height as int);
        }
    }
    while i < cells.len()
        invariant
            i <= cells@.len(),
            1 <= width <= MAX_IMAGE_DIMENSION,
            1 <= height <= MAX_IMAGE_DIMENSION,
            width * height <= 8192 * 8192,
            bins_count(bins@, cells@.take(i as int), width as int, height as int),
        decreases cells@.len() - i,
    {
        let cell = cells[i];
        let ghost before = bins@;
        assert(cells@.take(i + 1).drop_last() =~= cells@.take(i as int));
        assert(cells@.take(i + 1).last() == cell);
        let inside = cell.x >= 0 && cell.y >= 0 && cell.x < width as i64 && cell.y < height as i64;
        if inside {
            let x: usize = cell.x as usize;
            let y: usize = cell.y as usize;
            proof {
                bin_bounds(x as int, y as int, width as int, height as int);
                assert(0 <= y * width) by (nonlinear_arith)
                    requires
                        y >= 0,
                        width >= 0,
                ;
            }
            let at: usize = y * width + x;
            let count: u32 = bins[at];
            if count < u32::MAX {
                bins[at] = count + 1;
            }
        }
        proof {
            let next = cells@.take(i + 1);
            let prev = cells@.take(i as int);
            assert forall|x: int, y: int| 0 <= x < width && 0 <= y < height implies
                #[trigger] bins@[y * width + x] == counted(hits(next, x, y)) by {
                bin_bounds(x, y, width as int, height as int);
                assert(before[y * width + x] == counted(hits(prev, x, y)));
                if inside {
                    bin_bounds(cell.x as int, cell.y as int, width as int, height as int);
                    if y * width + x == cell.y * width + cell.x {
                        bins_differ(x, y, cell.x as int, cell.y as int, width as int);
                    }
                }
            }
        }
        i = i + 1;
    }
    assert(cells@.take(cells@.len() as int) =~= cells@);
    bins
}

// ---------------------------------------------------------------------------
// Percentiles
// ---------------------------------------------------------------------------
/// How many values are neither zero nor above `limit`.
pub open spec fn nonzero_up_to(values: Seq<u32>, limit: int) -> nat
    decreases values.len(),
{
    if values.len() == 0 {
        0
    } else {
        nonzero_up_to(values.drop_last(), limit) + if 0 < values.last() <= limit {
            1nat
        } else {
            0
        }
    }
}

fn count_up_to(values: &Vec<u32>, limit: u32) -> (out: usize)
    ensures
        out == nonzero_up_to(values@, limit as int),
{
    let mut count: usize = 0;
    let mut i: usize = 0;
    assert(values@.take(0) =~= Seq::<u32>::empty());
    while i < values.len()
        invariant
            i <= values@.len(),
            count <= i,
            count == nonzero_up_to(values@.take(i as int), limit as int),
        decreases values@.len() - i,
    {
        assert(values@.take(i + 1).drop_last() =~= values@.take(i as int));
        if values[i] > 0 && values[i] <= limit {
            count = count + 1;
        }
        i = i + 1;
    }
    assert(values@.take(values@.len() as int) =~= values@);
    count
}

/// How many values are not zero.
fn nonzero_count(values: &Vec<u32>) -> (out: usize)
    ensures
        out == nonzero_up_to(values@, u32::MAX as int),
{
    count_up_to(values, u32::MAX)
}

proof fn none_up_to_zero(values: Seq<u32>)
    ensures
        nonzero_up_to(values, 0) == 0,
    decreases values.len(),
{
    if values.len() > 0 {
        none_up_to_zero(values.drop_last());
    }
}

/// The pattern of one hundred.
pub const HUNDRED_BITS: u32 = 0x42c8_0000;

/// The place of a percentile among `last + 1` sorted values.
pub open spec fn percentile_place(last: nat, percentile: Real32) -> nat {
    let hundred = Real32 { bits: HUNDRED_BITS };
    let share = percentile.within(Real32 { bits: 0 }, hundred);
    whole_near(quotient_of(times_of(whole_32(last), share), hundred), last)
}

fn percentile_index(last: usize, percentile: Real32) -> (out: usize)
    ensures
        out == percentile_place(last as nat, percentile),
        out <= last,
{
    let hundred = Real32 { bits: HUNDRED_BITS };
    let share = percentile.clamped(Real32 { bits: 0 }, hundred);
    let place = quotient(times(from_whole(last as u64), share), hundred);
    rounded_at_most(place, last as u64) as usize
}

/// Whether a number stands at a place among the values that are not zero, in
/// increasing order.
pub open spec fn stands_at(values: Seq<u32>, place: int, value: int) -> bool {
    nonzero_up_to(values, value - 1) <= place < nonzero_up_to(values, value)
}

/// The percentile of the values that are not zero. Without such values it is
/// one.
pub fn percentile_nonzero(values: &Vec<u32>, percentile: Real32) -> (out: Real32)
    ensures
        ({
            let n = nonzero_up_to(values@, u32::MAX as int);
            if n == 0 {
                out == whole_32(1)
            } else {
                exists|value: u32| #[trigger]
                    stands_at(
                        values@,
                        percentile_place((n - 1) as nat, percentile) as int,
                        value as int,
                    ) && out == whole_32(value as nat)
            }
        }),
{
    let n: usize = nonzero_count(values);
    if n == 0 {
        return from_whole(1);
    }
    let place: usize = percentile_index(n - 1, percentile);
    let value: u32 = nonzero_at(values, place);
    let out = from_whole(value as u64);
    assert(out == whole_32(value as nat));
    assert(place == percentile_place((n - 1) as nat, percentile));
    assert(stands_at(
        values@,
        percentile_place((n - 1) as nat, percentile) as int,
        value as int,
    ));
    out
}

fn nonzero_at(values: &Vec<u32>, place: usize) -> (out: u32)
    requires
        place < nonzero_up_to(values@, u32::MAX as int),
    ensures
        stands_at(values@, place as int, out as int),
{
    let mut low: u32 = 0;
    let mut high: u32 = u32::MAX;
    proof {
        none_up_to_zero(values@);
    }
    while high - low > 1
        invariant
            low < high,
            nonzero_up_to(values@, low as int) <= place,
            place < nonzero_up_to(values@, high as int),
        decreases high - low,
    {
        let mid: u32 = low + (high - low) / 2;
        if count_up_to(values, mid) <= place {
            low = mid;
        } else {
            high = mid;
        }
    }
    high
}

proof fn more_up_to_more(values: Seq<u32>, a: int, b: int)
    requires
        a <= b,
    ensures
        nonzero_up_to(values, a) <= nonzero_up_to(values, b),
    decreases values.len(),
{
    if values.len() > 0 {
        more_up_to_more(values.drop_last(), a, b);
    }
}

/// There is one number only at a place.
pub proof fn place_is_unique(values: Seq<u32>, place: int, a: u32, b: u32)
    requires
        stands_at(values, place, a as int),
        stands_at(values, place, b as int),
    ensures
        a == b,
{
    if a < b {
        more_up_to_more(values, a as int, b - 1);
    } else if b < a {
        more_up_to_more(values, b as int, a - 1);
    }
}

pub open spec fn is_finite_32(value: Real32) -> bool {
    value.magnitude() < 0x7f80_0000
}

fn finite_32(value: Real32) -> (out: bool)
    ensures
        out == is_finite_32(value),
{
    let magnitude: u32 = if value.bits < 0x8000_0000 {
        value.bits
    } else {
        value.bits - 0x8000_0000
    };
    magnitude < 0x7f80_0000
}

fn key_32(value: Real32) -> (out: i64)
    ensures
        out == value.order_key(),
{
    if value.bits < 0x8000_0000 {
        value.bits as i64
    } else {
        -((value.bits - 0x8000_0000) as i64)
    }
}

/// How many values are finite and not above a limit.
pub open spec fn finite_up_to(values: Seq<Real32>, limit: int) -> nat
    decreases values.len(),
{
    if values.len() == 0 {
        0
    } else {
        finite_up_to(values.drop_last(), limit) + if is_finite_32(values.last())
            && values.last().order_key() <= limit {
            1nat
        } else {
            0
        }
    }
}

fn count_finite_up_to(values: &Vec<Real32>, limit: i64) -> (out: usize)
    ensures
        out == finite_up_to(values@, limit as int),
{
    let mut count: usize = 0;
    let mut i: usize = 0;
    assert(values@.take(0) =~= Seq::<Real32>::empty());
    while i < values.len()
        invariant
            i <= values@.len(),
            count <= i,
            count == finite_up_to(values@.take(i as int), limit as int),
        decreases values@.len() - i,
    {
        assert(values@.take(i + 1).drop_last() =~= values@.take(i as int));
        if finite_32(values[i]) && key_32(values[i]) <= limit {
            count = count + 1;
        }
        i = i + 1;
    }
    assert(values@.take(values@.len() as int) =~= values@);
    count
}

/// The order key of no finite number is above this.
pub const TOP_KEY: i64 = 0x7f7f_ffff;

/// How many values are finite.
fn finite_count(values: &Vec<Real32>) -> (out: usize)
    ensures
        out == finite_up_to(values@, TOP_KEY as int),
{
    count_finite_up_to(values, TOP_KEY)
}

proof fn none_below_bottom(values: Seq<Real32>)
    ensures
        finite_up_to(values, -0x7f80_0000) == 0,
    decreases values.len(),
{
    if values.len() > 0 {
        none_below_bottom(values.drop_last());
    }
}

/// How many values are finite and stand at a key.
pub open spec fn finite_at(values: Seq<Real32>, key: int) -> nat
    decreases values.len(),
{
    if values.len() == 0 {
        0
    } else {
        finite_at(values.drop_last(), key) + if is_finite_32(values.last())
            && values.last().order_key() == key {
            1nat
        } else {
            0
        }
    }
}

/// The place of a finite value among the finite values in increasing order.
/// Equal values stay in the order of the list.
pub open spec fn finite_place(values: Seq<Real32>, i: int) -> nat {
    let key = values[i].order_key();
    finite_up_to(values, key - 1) + finite_at(values.take(i), key)
}

/// Whether a value is the one at the place of a percentile among the finite
/// values in increasing order. Without finite values it is one.
pub open spec fn is_percentile(values: Seq<Real32>, percentile: Real32, out: Real32) -> bool {
    let n = finite_up_to(values, TOP_KEY as int);
    if n == 0 {
        out.bits == ONE_BITS_32
    } else {
        exists|i: int|
            {
                &&& 0 <= i < values.len()
                &&& is_finite_32(values[i])
                &&& #[trigger] finite_place(values, i) == percentile_place(
                    (n - 1) as nat,
                    percentile,
                )
                &&& out == values[i]
            }
    }
}

proof fn up_to_and_at(values: Seq<Real32>, key: int)
    ensures
        finite_up_to(values, key) == finite_up_to(values, key - 1) + finite_at(values, key),
    decreases values.len(),
{
    if values.len() > 0 {
        up_to_and_at(values.drop_last(), key);
    }
}

proof fn more_finite_up_to_more(values: Seq<Real32>, a: int, b: int)
    requires
        a <= b,
    ensures
        finite_up_to(values, a) <= finite_up_to(values, b),
    decreases values.len(),
{
    if values.len() > 0 {
        more_finite_up_to_more(values.drop_last(), a, b);
    }
}

proof fn more_finite_at_later(values: Seq<Real32>, key: int, i: int, j: int)
    requires
        0 <= i < j <= values.len(),
        is_finite_32(values[i]),
        values[i].order_key() == key,
    ensures
        finite_at(values.take(i), key) < finite_at(values.take(j), key),
    decreases j,
{
    assert(values.take(j).drop_last() =~= values.take(j - 1));
    if i < j - 1 {
        more_finite_at_later(values, key, i, j - 1);
    }
}

proof fn places_go_by_order(values: Seq<Real32>, i: int, j: int)
    requires
        0 <= i < values.len(),
        0 <= j < values.len(),
        is_finite_32(values[i]),
        values[i].order_key() < values[j].order_key() || (values[i].order_key()
            == values[j].order_key() && i < j),
    ensures
        finite_place(values, i) < finite_place(values, j),
{
    let key = values[i].order_key();
    if key < values[j].order_key() {
        more_finite_at_later(values, key, i, values.len() as int);
        assert(values.take(values.len() as int) =~= values);
        up_to_and_at(values, key);
        more_finite_up_to_more(values, key, values[j].order_key() - 1);
    } else {
        more_finite_at_later(values, key, i, j);
    }
}

/// There is one percentile only.
pub proof fn percentile_is_unique(values: Seq<Real32>, percentile: Real32, a: Real32, b: Real32)
    requires
        is_percentile(values, percentile, a),
        is_percentile(values, percentile, b),
    ensures
        a == b,
{
    let n = finite_up_to(values, TOP_KEY as int);
    if n > 0 {
        let place = percentile_place((n - 1) as nat, percentile);
        let i = choose|i: int|
            {
                &&& 0 <= i < values.len()
                &&& is_finite_32(values[i])
                &&& #[trigger] finite_place(values, i) == place
                &&& a == values[i]
            };
        let j = choose|j: int|
            {
                &&& 0 <= j < values.len()
                &&& is_finite_32(values[j])
                &&& #[trigger] finite_place(values, j) == place
                &&& b == values[j]
            };
        if i != j {
            if values[i].order_key() < values[j].order_key() || (values[i].order_key()
                == values[j].order_key() && i < j) {
                places_go_by_order(values, i, j);
            } else {
                places_go_by_order(values, j, i);
            }
        }
    }
}

/// The key that stands at a place among the finite values.
fn key_at(values: &Vec<Real32>, place: usize) -> (out: i64)
    requires
        place < finite_up_to(values@, TOP_KEY as int),
    ensures
        finite_up_to(values@, out - 1) <= place < finite_up_to(values@, out as int),
        -0x7f80_0000 < out <= TOP_KEY,
{
    let mut low: i64 = -0x7f80_0000;
    let mut high: i64 = TOP_KEY;
    proof {
        none_below_bottom(values@);
    }
    while high - low > 1
        invariant
            -0x7f80_0000 <= low < high <= TOP_KEY,
            finite_up_to(values@, low as int) <= place,
            place < finite_up_to(values@, high as int),
        decreases high - low,
    {
        let mid: i64 = low + (high - low) / 2;
        if count_finite_up_to(values, mid) <= place {
            low = mid;
        } else {
            high = mid;
        }
    }
    high
}

/// The percentile of the finite values. Without finite values it is one.
pub fn percentile_finite(values: &Vec<Real32>, percentile: Real32) -> (out: Real32)
    ensures
        is_percentile(values@, percentile, out),
{
    let n: usize = finite_count(values);
    if n == 0 {
        return Real32 { bits: ONE_BITS_32 };
    }
    let place: usize = percentile_index(n - 1, percentile);
    let key: i64 = key_at(values, place);
    let skipped: usize = place - count_finite_up_to(values, key - 1);
    let mut seen: usize = 0;
    let mut i: usize = 0;
    proof {
        up_to_and_at(values@, key as int);
        assert(values@.take(0) =~= Seq::<Real32>::empty());
    }
    while i < values.len()
        invariant
            i <= values@.len(),
            n == finite_up_to(values@, TOP_KEY as int),
            n > 0,
            place == percentile_place((n - 1) as nat, percentile),
            place == finite_up_to(values@, key - 1) + skipped,
            seen == finite_at(values@.take(i as int), key as int),
            seen <= skipped,
            skipped < finite_at(values@, key as int),
        decreases values@.len() - i,
    {
        let value = values[i];
        assert(values@.take(i + 1).drop_last() =~= values@.take(i as int));
        if finite_32(value) && key_32(value) == key {
            if seen == skipped {
                assert(finite_place(values@, i as int) == place);
                return value;
            }
            seen = seen + 1;
        }
        i = i + 1;
    }
    proof {
        assert(values@.take(values@.len() as int) =~= values@);
    }
    Real32 { bits: ONE_BITS_32 }
}

/// The smallest finite value, where there is one.
pub open spec fn least_finite(values: Seq<Real32>) -> Option<Real32>
    decreases values.len(),
{
    if values.len() == 0 {
        None
    } else {
        let before = least_finite(values.drop_last());
        if !is_finite_32(values.last()) {
            before
        } else {
            match before {
                Some(least) => Some(least.smaller_of(values.last())),
                None => Some(values.last()),
            }
        }
    }
}

/// The smallest finite value of an image; zero where there is none.
pub fn image_floor(image: &Image2dV1) -> (out: Real32)
    ensures
        out == (match least_finite(image.pixels@) {
            Some(least) => least,
            None => Real32 { bits: 0 },
        }),
{
    let mut least: Option<Real32> = None;
    let mut i: usize = 0;
    assert(image.pixels@.take(0) =~= Seq::<Real32>::empty());
    while i < image.pixels.len()
        invariant
            i <= image.pixels@.len(),
            least == least_finite(image.pixels@.take(i as int)),
        decreases image.pixels@.len() - i,
    {
        assert(image.pixels@.take(i + 1).drop_last() =~= image.pixels@.take(i as int));
        if finite_32(image.pixels[i]) {
            least = match least {
                Some(value) => Some(value.smaller(image.pixels[i])),
                None => Some(image.pixels[i]),
            };
        }
        i = i + 1;
    }
    assert(image.pixels@.take(image.pixels@.len() as int) =~= image.pixels@);
    match least {
        Some(value) => value,
        None => Real32 { bits: 0 },
    }
}

// ---------------------------------------------------------------------------
// What was drawn last
// ---------------------------------------------------------------------------
/// Settings that an image is drawn by. The zoom only scales what is drawn.
pub trait RenderSettings: Sized + Copy {
    spec fn same_as(self, other: Self) -> bool;

    spec fn zoom_of(self) -> Real32;

    spec fn zoomed(self, zoom: Real32) -> Self;

    fn same(self, other: Self) -> (out: bool)
        ensures
            out == self.same_as(other),
    ;

    fn zoom(self) -> (out: Real32)
        ensures
            out == self.zoom_of(),
    ;

    fn with_zoom(self, zoom: Real32) -> (out: Self)
        ensures
            out == self.zoomed(zoom),
    ;
}

#[derive(Debug, Clone, Copy, PartialEq, Eq, Structural)]
pub struct Density2dRenderSettings {
    pub pixel_size: Real64,
    pub contrast_percentile: Real32,
    pub colormap: Colormap,
    pub zoom: Real32,
}

impl Default for Density2dRenderSettings {
    fn default() -> (out: Self)
        ensures
            out.pixel_size.bits == 0x4024_0000_0000_0000,
            out.contrast_percentile.bits == 0x42c7_0000,
            out.colormap == Colormap::Fire,
            out.zoom.bits == 0x3f80_0000,
    {
        Density2dRenderSettings {
            pixel_size: Real64 { bits: 0x4024_0000_0000_0000 },
            contrast_percentile: Real32 { bits: 0x42c7_0000 },
            colormap: Colormap::Fire,
            zoom: Real32 { bits: 0x3f80_0000 },
        }
    }
}

impl RenderSettings for Density2dRenderSettings {
    open spec fn same_as(self, other: Self) -> bool {
        &&& self.pixel_size.same(other.pixel_size)
        &&& self.contrast_percentile.same(other.contrast_percentile)
        &&& self.colormap == other.colormap
        &&& self.zoom.same(other.zoom)
    }

    open spec fn zoom_of(self) -> Real32 {
        self.zoom
    }

    open spec fn zoomed(self, zoom: Real32) -> Self {
        Density2dRenderSettings { zoom, ..self }
    }

    fn same(self, other: Self) -> (out: bool) {
        self.pixel_size.equals(other.pixel_size) && self.contrast_percentile.equals(
            other.contrast_percentile,
        ) && self.colormap == other.colormap && self.zoom.equals(other.zoom)
    }

    fn zoom(self) -> (out: Real32) {
        self.zoom
    }

    fn with_zoom(self, zoom: Real32) -> (out: Self) {
        Density2dRenderSettings { zoom, ..self }
    }
}

#[derive(Debug, Clone, Copy, PartialEq, Eq, Structural)]
pub struct Image2dRenderSettings {
    pub contrast_percentile: Real32,
    pub colormap: Colormap,
    pub zoom: Real32,
}

impl Default for Image2dRenderSettings {
    fn default() -> (out: Self)
        ensures
            out.contrast_percentile.bits == 0x42c7_0000,
            out.colormap == Colormap::Fire,
            out.zoom.bits == 0x3f80_0000,
    {
        Image2dRenderSettings {
            contrast_percentile: Real32 { bits: 0x42c7_0000 },
            colormap: Colormap::Fire,
            zoom: Real32 { bits: 0x3f80_0000 },
        }
    }
}

impl RenderSettings for Image2dRenderSettings {
    open spec fn same_as(self, other: Self) -> bool {
        &&& self.contrast_percentile.same(other.contrast_percentile)
        &&& self.colormap == other.colormap
        &&& self.zoom.same(other.zoom)
    }

    open spec fn zoom_of(self) -> Real32 {
        self.zoom
    }

    open spec fn zoomed(self, zoom: Real32) -> Self {
        Image2dRenderSettings { zoom, ..self }
    }

    fn same(self, other: Self) -> (out: bool) {
        self.contrast_percentile.equals(other.contrast_percentile) && self.colormap
            == other.colormap && self.zoom.equals(other.zoom)
    }

    fn zoom(self) -> (out: Real32) {
        self.zoom
    }

    fn with_zoom(self, zoom: Real32) -> (out: Self) {
        Image2dRenderSettings { zoom, ..self }
    }
}

/// What has to be done before an image is shown.
#[derive(Debug, Clone, Copy, PartialEq, Eq, Structural)]
pub enum RenderStep {
    /// The image is up to date.
    Keep,
    /// There is no data: the image was dropped.
    Cleared,
    /// The image has to be drawn.
    Draw,
}

/// The image of a view: the picture, its size, the generation of the data that
/// it shows, and the settings that it was drawn by.
#[derive(Debug)]
pub struct RasterViewState<S, I> {
    pub image: Option<I>,
    pub rendered_size: (usize, usize),
    pub rendered_generation: Option<u64>,
    pub dirty: bool,
    pub settings: S,
}

pub type Density2dViewState<I> = RasterViewState<Density2dRenderSettings, I>;

pub type Image2dViewState<I> = RasterViewState<Image2dRenderSettings, I>;

impl<S: RenderSettings, I> RasterViewState<S, I> {
    /// A view with nothing drawn yet.
    pub fn new(settings: S, dirty: bool) -> (out: Self)
        ensures
            out == (RasterViewState::<S, I> {
                image: None,
                rendered_size: (0, 0),
                rendered_generation: None,
                dirty,
                settings,
            }),
    {
        RasterViewState {
            image: None,
            rendered_size: (0, 0),
            rendered_generation: None,
            dirty,
            settings,
        }
    }

    pub open spec fn is_clear(self) -> bool {
        &&& self.image is None
        &&& self.rendered_size == (0usize, 0usize)
        &&& self.rendered_generation is None
        &&& !self.dirty
    }

    /// Drops the image.
    pub fn clear(&mut self)
        ensures
            final(self).is_clear(),
            final(self).settings == old(self).settings,
    {
        self.image = None;
        self.rendered_size = (0, 0);
        self.rendered_generation = None;
        self.dirty = false;
    }

    /// Asks for the image to be drawn anew.
    pub fn mark_dirty(&mut self)
        ensures
            *final(self) == (RasterViewState { dirty: true, ..*old(self) }),
    {
        self.dirty = true;
    }

    pub fn settings(&self) -> (out: S)
        ensures
            out == self.settings,
    {
        self.settings
    }

    pub fn image(&self) -> (out: Option<&I>)
        ensures
            match out {
                Some(image) => self.image == Some(*image),
                None => self.image is None,
            },
    {
        match &self.image {
            Some(image) => Some(image),
            None => None,
        }
    }

    pub fn rendered_size(&self) -> (out: (usize, usize))
        ensures
            out == self.rendered_size,
    {
        self.rendered_size
    }

    /// Changes the settings; the image is drawn anew where they differ.
    pub fn set_settings(&mut self, settings: S)
        ensures
            *final(self) == (if old(self).settings.same_as(settings) {
                *old(self)
            } else {
                RasterViewState { settings, dirty: true, ..*old(self) }
            }),
    {
        if !self.settings.same(settings) {
            self.settings = settings;
            self.mark_dirty();
        }
    }

    /// Changes the settings as the controls of the view do: a zoom alone does
    /// not draw the image anew.
    pub fn adjust_settings(&mut self, settings: S)
        ensures
            ({
                let before = old(self).settings;
                let unzoomed = settings.zoomed(before.zoom_of());
                if before.same_as(unzoomed) {
                    *final(self) == (RasterViewState {
                        settings: before.zoomed(settings.zoom_of()),
                        ..*old(self)
                    })
                } else {
                    *final(self) == (RasterViewState {
                        settings: unzoomed.zoomed(settings.zoom_of()),
                        dirty: true,
                        ..*old(self)
                    })
                }
            }),
    {
        let zoom = settings.zoom();
        self.set_settings(settings.with_zoom(self.settings.zoom()));
        self.settings = self.settings.with_zoom(zoom);
    }

    /// What has to be done before the image of a generation of the data is
    /// shown.
    pub fn render_step(&mut self, has_data: bool, generation: u64) -> (step: RenderStep)
        ensures
            step == (if !old(self).dirty && old(self).rendered_generation == Some(generation) {
                RenderStep::Keep
            } else if has_data {
                RenderStep::Draw
            } else {
                RenderStep::Cleared
            }),
            step != RenderStep::Cleared ==> *final(self) == *old(self),
            step == RenderStep::Cleared ==> final(self).is_clear() && final(self).settings == old(
                self,
            ).settings,
    {
        let current = match self.rendered_generation {
            Some(g) => g == generation,
            None => false,
        };
        if !self.dirty && current {
            return RenderStep::Keep;
        }
        if has_data {
            RenderStep::Draw
        } else {
            self.clear();
            RenderStep::Cleared
        }
    }

    /// Takes in the image that was drawn.
    pub fn finish_render(&mut self, image: I, width: usize, height: usize, generation: u64)
        ensures
            *final(self) == (RasterViewState {
                image: Some(image),
                rendered_size: (width, height),
                rendered_generation: Some(generation),
                dirty: false,
                settings: old(self).settings,
            }),
    {
        self.rendered_size = (width, height);
        self.image = Some(image);
        self.rendered_generation = Some(generation);
        self.dirty = false;
    }
}

/// What the views have drawn last.
#[derive(Debug)]
pub enum HostViewRenderState<I> {
    Nothing,
    Density2d(RasterViewState<Density2dRenderSettings, I>),
    Image2d(RasterViewState<Image2dRenderSettings, I>),
}

impl<I> HostViewRenderState<I> {
    /// The state of a density view. A view of another kind starts anew, to be
    /// drawn.
    pub fn density_state(&mut self) -> (out: &mut RasterViewState<Density2dRenderSettings, I>)
        ensures
            match *old(self) {
                HostViewRenderState::Density2d(state) => *out == state,
                _ => out.dirty && out.image is None && out.rendered_size == (0usize, 0usize)
                    && out.rendered_generation is None && out.settings.colormap == Colormap::Fire
                    && out.settings.pixel_size.bits == 0x4024_0000_0000_0000
                    && out.settings.contrast_percentile.bits == 0x42c7_0000
                    && out.settings.zoom.bits == 0x3f80_0000,
            },
            *final(self) == HostViewRenderState::Density2d(*final(out)),
    {
        let fresh = match self {
            HostViewRenderState::Density2d(_) => false,
            _ => true,
        };
        if fresh {
            *self = HostViewRenderState::Density2d(
                RasterViewState::new(Density2dRenderSettings::default(), true),
            );
        }
        match self {
            HostViewRenderState::Density2d(state) => state,
            _ => vstd::pervasive::unreached(),
        }
    }

    /// The state of an image view, as `density_state` gives that of a density
    /// view.
    pub fn image_state(&mut self) -> (out: &mut RasterViewState<Image2dRenderSettings, I>)
        ensures
            match *old(self) {
                HostViewRenderState::Image2d(state) => *out == state,
                _ => out.dirty && out.image is None && out.rendered_size == (0usize, 0usize)
                    && out.rendered_generation is None && out.settings.colormap == Colormap::Fire
                    && out.settings.contrast_percentile.bits == 0x42c7_0000
                    && out.settings.zoom.bits == 0x3f80_0000,
            },
            *final(self) == HostViewRenderState::Image2d(*final(out)),
    {
        let fresh = match self {
            HostViewRenderState::Image2d(_) => false,
            _ => true,
        };
        if fresh {
            *self = HostViewRenderState::Image2d(
                RasterViewState::new(Image2dRenderSettings::default(), true),
            );
        }
        match self {
            HostViewRenderState::Image2d(state) => state,
            _ => vstd::pervasive::unreached(),
        }
    }

    /// Asks for the image to be drawn anew.
    pub fn mark_dirty(&mut self)
        ensures
            *final(self) == (match *old(self) {
                HostViewRenderState::Nothing => HostViewRenderState::<I>::Nothing,
                HostViewRenderState::Density2d(state) => HostViewRenderState::Density2d(
                    RasterViewState { dirty: true, ..state },
                ),
                HostViewRenderState::Image2d(state) => HostViewRenderState::Image2d(
                    RasterViewState { dirty: true, ..state },
                ),
            }),
    {
        match self {
            HostViewRenderState::Density2d(state) => state.mark_dirty(),
            HostViewRenderState::Image2d(state) => state.mark_dirty(),
            HostViewRenderState::Nothing => {},
        }
    }

    /// The image that can be exported.
    pub fn drawn_image(&self) -> (out: Option<&I>)
        ensures
            match *self {
                HostViewRenderState::Nothing => out is None,
                HostViewRenderState::Density2d(state) => match out {
                    Some(image) => state.image == Some(*image),
                    None => state.image is None,
                },
                HostViewRenderState::Image2d(state) => match out {
                    Some(image) => state.image == Some(*image),
                    None => state.image is None,
                },
            },
    {
        match self {
            HostViewRenderState::Nothing => None,
            HostViewRenderState::Density2d(state) => state.image(),
            HostViewRenderState::Image2d(state) => state.image(),
        }
    }
}

// ---------------------------------------------------------------------------
// Lines
// ---------------------------------------------------------------------------
/// The name of a line in the legend.
pub open spec fn line_name(name: Seq<char>, index: int) -> Seq<char> {
    if is_blank(name) {
        "Series "@ + decimal((index + 1) as nat)
    } else {
        name
    }
}

pub fn series_name(line: &Series1dLine, index: usize) -> (out: String)
    requires
        index < usize::MAX,
    ensures
        out@ == line_name(line.name@, index as int),
{
    if blank(line.name.as_str()) {
        let mut out = "Series ".to_owned();
        push_decimal(&mut out, (index + 1) as u64);
        out
    } else {
        line.name.clone()
    }
}

/// The points of all lines.
pub open spec fn points_in(lines: Seq<Series1dLine>) -> nat
    decreases lines.len(),
{
    if lines.len() == 0 {
        0
    } else {
        points_in(lines.drop_last()) + lines.last().points@.len()
    }
}

proof fn points_grow(lines: Seq<Series1dLine>, n: int)
    requires
        0 <= n <= lines.len(),
    ensures
        points_in(lines.take(n)) <= points_in(lines),
    decreases lines.len() - n,
{
    if n < lines.len() {
        points_grow(lines, n + 1);
        assert(lines.take(n + 1).drop_last() =~= lines.take(n));
    } else {
        assert(lines.take(n) =~= lines);
    }
}

impl Series1dV1 {
    /// The number of points of all lines.
    pub fn total_points(&self) -> (out: usize)
        requires
            points_in(self.lines@) <= usize::MAX,
        ensures
            out == points_in(self.lines@),
    {
        let mut total: usize = 0;
        let mut i: usize = 0;
        assert(self.lines@.take(0) =~= Seq::<Series1dLine>::empty());
        while i < self.lines.len()
            invariant
                i <= self.lines@.len(),
                points_in(self.lines@) <= usize::MAX,
                total == points_in(self.lines@.take(i as int)),
            decreases self.lines@.len() - i,
        {
            proof {
                points_grow(self.lines@, i + 1);
                assert(self.lines@.take(i + 1).drop_last() =~= self.lines@.take(i as int));
            }
            total = total + self.lines[i].points.len();
            i = i + 1;
        }
        assert(self.lines@.take(self.lines@.len() as int) =~= self.lines@);
        total
    }

    /// Whether no line has a point.
    pub fn is_empty(&self) -> (out: bool)
        ensures
            out == (points_in(self.lines@) == 0),
    {
        let mut i: usize = 0;
        assert(self.lines@.take(0) =~= Seq::<Series1dLine>::empty());
        while i < self.lines.len()
            invariant
                i <= self.lines@.len(),
                points_in(self.lines@.take(i as int)) == 0,
            decreases self.lines@.len() - i,
        {
            proof {
                points_grow(self.lines@, i + 1);
                assert(self.lines@.take(i + 1).drop_last() =~= self.lines@.take(i as int));
            }
            if self.lines[i].points.len() > 0 {
                return false;
            }
            i = i + 1;
        }
        assert(self.lines@.take(self.lines@.len() as int) =~= self.lines@);
        true
    }
}

// ---------------------------------------------------------------------------
// Laws
// ---------------------------------------------------------------------------
/// Two columns can be plotted where both are there and hold a number in every
/// row; otherwise the message names the column that is at fault.
pub proof fn columns_of_numbers_can_be_plotted(
    dataset: TableDatasetV1,
    x_column: Seq<char>,
    y_column: Seq<char>,
)
    ensures
        plot_problem(dataset, x_column, y_column) is None <==> dataset.named(x_column) is Some
            && dataset.named(y_column) is Some && forall|r: int|
            0 <= r < dataset.rows ==> (#[trigger] dataset.named(x_column)->0.numeric_at(r)) is Some
                && dataset.named(y_column)->0.numeric_at(r) is Some,
        dataset.named(x_column) is None ==> plot_problem(dataset, x_column, y_column) == Some(
            "dataset is missing "@ + "x"@ + " column "@ + x_column,
        ),
        dataset.named(x_column) is Some && dataset.named(y_column) is None ==> plot_problem(
            dataset,
            x_column,
            y_column,
        ) == Some("dataset is missing "@ + "y"@ + " column "@ + y_column),
{
    if dataset.named(x_column) is Some && dataset.named(y_column) is Some {
        rows_of_numbers_have_no_problem(
            dataset.named(x_column)->0,
            dataset.named(y_column)->0,
            (x_column, y_column),
            dataset.rows as nat,
        );
    }
}

/// The first row without a number decides which column the message names.
pub proof fn rows_of_numbers_have_no_problem(
    x: TableColumnData,
    y: TableColumnData,
    names: (Seq<char>, Seq<char>),
    n: nat,
)
    ensures
        row_problem(x, y, names, n) is None <==> forall|r: int|
            0 <= r < n ==> (#[trigger] x.numeric_at(r)) is Some && y.numeric_at(r) is Some,
        forall|r: int|
            0 <= r < n && (forall|k: int|
                0 <= k < r ==> (#[trigger] x.numeric_at(k)) is Some && y.numeric_at(k) is Some) && (
            #[trigger] x.numeric_at(r)) is None ==> row_problem(x, y, names, n) == Some(
                "column "@ + names.0 + " is not numeric"@,
            ),
        forall|r: int|
            0 <= r < n && (forall|k: int|
                0 <= k < r ==> (#[trigger] x.numeric_at(k)) is Some && y.numeric_at(k) is Some) && (
            #[trigger] x.numeric_at(r)) is Some && y.numeric_at(r) is None ==> row_problem(
                x,
                y,
                names,
                n,
            ) == Some("column "@ + names.1 + " is not numeric"@),
    decreases n,
{
    if n > 0 {
        rows_of_numbers_have_no_problem(x, y, names, (n - 1) as nat);
        let last = x.numeric_at(n - 1);
    }
}

/// The bounds of a column are cells of it, where it has any.
pub proof fn bounds_are_cells(cells: Seq<Option<Real64>>)
    ensures
        lowest(cells) == (Real64 { bits: POSITIVE_INFINITY_BITS }) || cells.contains(
            Some(lowest(cells)),
        ),
        highest(cells) == (Real64 { bits: NEGATIVE_INFINITY_BITS }) || cells.contains(
            Some(highest(cells)),
        ),
    decreases cells.len(),
{
    if cells.len() > 0 {
        let rest = cells.drop_last();
        bounds_are_cells(rest);
        assert(cells[cells.len() - 1] == cells.last());
        assert forall|c: Option<Real64>| rest.contains(c) implies cells.contains(c) by {
            let k = choose|k: int| 0 <= k < rest.len() && rest[k] == c;
            assert(cells[k] == c);
        }
    }
}

/// The area of a density image is the plane of the schema where the columns
/// are its coordinates, and else the bounds of the columns, each axis by its
/// own.
pub proof fn areas_have_their_own_bounds(
    schema: TableSchema,
    x: TableColumnData,
    y: TableColumnData,
    x_column: Seq<char>,
    y_column: Seq<char>,
)
    ensures
        (schema.coordinate_space_2d matches Some(space) && space.x_column@ == x_column
            && space.y_column@ == y_column) ==> density_extent(schema, x, y, x_column, y_column)
            == (DensityExtent::Area {
            x_min: schema.coordinate_space_2d->0.x_min,
            x_max: schema.coordinate_space_2d->0.x_max,
            y_min: schema.coordinate_space_2d->0.y_min,
            y_max: schema.coordinate_space_2d->0.y_max,
        }),
        schema.coordinate_space_2d is None && x.numeric@.len() > 0 && y.numeric@.len() > 0
            ==> density_extent(schema, x, y, x_column, y_column) == (DensityExtent::Area {
            x_min: lowest(x.numeric@),
            x_max: highest(x.numeric@),
            y_min: lowest(y.numeric@),
            y_max: highest(y.numeric@),
        }),
        schema.coordinate_space_2d is None && x.numeric@.len() == 0 ==> density_extent(
            schema,
            x,
            y,
            x_column,
            y_column,
        ) is OnePixel,
{
}

/// The bins of an image count each point once, in the pixel of its column and
/// row, and no other.
pub proof fn points_count_in_their_own_pixel(
    bins: Seq<u32>,
    cells: Seq<GridCell>,
    width: int,
    height: int,
    x: int,
    y: int,
)
    requires
        bins_count(bins, cells, width, height),
        0 <= x < width,
        0 <= y < height,
    ensures
        (exists|i: int| 0 <= i < cells.len() && (#[trigger] cells[i]).x == x && cells[i].y == y)
            <==> bins[y * width + x] > 0,
        bins[y * width + x] <= cells.len(),
{
    hits_are_points(cells, x, y);
    assert(bins[y * width + x] == counted(hits(cells, x, y)));
}

proof fn hits_are_points(cells: Seq<GridCell>, x: int, y: int)
    ensures
        hits(cells, x, y) > 0 <==> exists|i: int|
            0 <= i < cells.len() && (#[trigger] cells[i]).x == x && cells[i].y == y,
        hits(cells, x, y) <= cells.len(),
    decreases cells.len(),
{
    if cells.len() > 0 {
        let rest = cells.drop_last();
        hits_are_points(rest, x, y);
        let last = cells[cells.len() - 1];
        if hits(rest, x, y) > 0 {
            let i = choose|i: int| 0 <= i < rest.len() && (#[trigger] rest[i]).x == x && rest[i].y == y;
            assert(cells[i] == rest[i]);
        }
        if exists|i: int| 0 <= i < cells.len() && (#[trigger] cells[i]).x == x && cells[i].y == y {
            let i = choose|i: int|
                0 <= i < cells.len() && (#[trigger] cells[i]).x == x && cells[i].y == y;
            if i < rest.len() {
                assert(rest[i] == cells[i]);
            }
        }
    }
}

/// One point more counts one more in its pixel.
pub proof fn each_point_counts_once(cells: Seq<GridCell>, cell: GridCell, x: int, y: int)
    ensures
        hits(cells.push(cell), x, y) == hits(cells, x, y) + (if cell.x == x && cell.y == y {
            1nat
        } else {
            0
        }),
        hits(cells, x, y) <= u32::MAX ==> counted(hits(cells, x, y)) == hits(cells, x, y),
{
    assert(cells.push(cell).drop_last() =~= cells);
}

/// The least finite value of an image is one of its values, and none of the
/// finite ones is below it.
pub proof fn least_values_bound_the_image(values: Seq<Real32>)
    ensures
        match least_finite(values) {
            Some(least) => values.contains(least) && is_finite_32(least) && forall|i: int|
                0 <= i < values.len() && is_finite_32(#[trigger] values[i]) ==> least.le(values[i]),
            None => forall|i: int| 0 <= i < values.len() ==> !is_finite_32(#[trigger] values[i]),
        },
    decreases values.len(),
{
    if values.len() > 0 {
        let rest = values.drop_last();
        least_values_bound_the_image(rest);
        let last = values[values.len() - 1];
        assert(values.last() == last);
        assert forall|v: Real32| rest.contains(v) implies values.contains(v) by {
            let k = choose|k: int| 0 <= k < rest.len() && rest[k] == v;
            assert(values[k] == v);
        }
        assert(values.contains(last));
        assert forall|i: int|
            0 <= i < values.len() && is_finite_32(#[trigger] values[i]) implies least_finite(
            values,
        ) is Some && least_finite(values)->0.le(values[i]) by {
            if i < rest.len() {
                assert(rest[i] == values[i]);
            }
        }
    }
}

/// The place of a percentile lies among the values; the lowest one is the first
/// place.
pub proof fn percentiles_lie_among_the_values(last: nat, percentile: Real32)
    ensures
        percentile_place(last, percentile) <= last,
        last < 0x100_0000 ==> percentile_place(last, Real32 { bits: 0 }) == 0,
        last * 100 < 0x100_0000 ==> percentile_place(last, Real32 { bits: HUNDRED_BITS }) == last,
{
    let hundred = Real32 { bits: HUNDRED_BITS };
    if last < 0x100_0000 {
        whole_numbers_keep_order_32(0, last);
        whole_numbers_are_calculated_exactly(last, 0);
        whole_numbers_keep_order_32(last, 100);
        whole_numbers_are_calculated_exactly(0, 100);
        assert(last * 0 == 0) by (nonlinear_arith);
        assert(0 * 100 == 0);
        assert(times_of(whole_32(last), whole_32(0)) == whole_32(0));
    }
    if last * 100 < 0x100_0000 {
        whole_numbers_keep_order_32(last, 100);
        whole_numbers_are_calculated_exactly(last, 100);
        assert(whole_32(100) == hundred);
        assert(quotient_of(times_of(whole_32(last), hundred), hundred) == whole_32(last));
        if last > 0 {
            let k = bits_to_24(last);
            whole_32_parts(last, k);
            half_up_of_moved_bits(last, k, 0);
            lemma2_to64();
            assert(last * pow2(0) == last) by (nonlinear_arith)
                requires
                    pow2(0) == 1,
            ;
            assert(half_up(last, 0) == last);
        }
    }
}

/// A line without a name is called by its number, counted from one.
pub proof fn lines_are_numbered_from_one(name: Seq<char>, index: int)
    requires
        index >= 0,
    ensures
        is_blank(name) ==> line_name(name, index) == "Series "@ + decimal((index + 1) as nat),
        !is_blank(name) ==> line_name(name, index) == name,
{
}

/// The points of a plot are those of all its lines.
pub proof fn plots_have_the_points_of_their_lines(lines: Seq<Series1dLine>, line: Series1dLine)
    ensures
        points_in(lines.push(line)) == points_in(lines) + line.points@.len(),
        points_in(seq![]) == 0,
{
    assert(lines.push(line).drop_last() =~= lines);
}

/// A density can be drawn of two columns that are there and whose rows all
/// hold numbers, and of no others.
pub proof fn tables_of_numbers_have_a_density(
    schema: TableSchema,
    dataset: TableDatasetV1,
    x_column: Seq<char>,
    y_column: Seq<char>,
)
    ensures
        density_problem(schema, dataset, x_column, y_column) is None ==> (dataset.named(
            x_column,
        ) matches Some(x) && (dataset.named(y_column) matches Some(y) && forall|r: int|
            0 <= r < dataset.rows ==> (#[trigger] x.numeric_at(r)) is Some && y.numeric_at(r)
                is Some)),
        (dataset.named(x_column) matches Some(x) && (dataset.named(y_column) matches Some(y)
            && all_numeric(x) && all_numeric(y) && forall|r: int|
            0 <= r < dataset.rows ==> (#[trigger] x.numeric_at(r)) is Some && y.numeric_at(r)
                is Some)) ==> density_problem(schema, dataset, x_column, y_column) is None,
        dataset.named(x_column) is None ==> density_problem(schema, dataset, x_column, y_column)
            is Some,
        dataset.named(y_column) is None ==> density_problem(schema, dataset, x_column, y_column)
            is Some,
{
    if dataset.named(x_column) is Some && dataset.named(y_column) is Some {
        rows_of_numbers_have_no_problem(
            dataset.named(x_column)->0,
            dataset.named(y_column)->0,
            (x_column, y_column),
            dataset.rows as nat,
        );
    }
}

/// One value more is counted exactly if it is neither zero nor above the limit.
pub proof fn values_from_one_on_are_counted(values: Seq<u32>, value: u32, limit: int)
    ensures
        1 <= value <= limit ==> nonzero_up_to(values.push(value), limit) == nonzero_up_to(
            values,
            limit,
        ) + 1,
        value == 0 || value > limit ==> nonzero_up_to(values.push(value), limit) == nonzero_up_to(
            values,
            limit,
        ),
        nonzero_up_to(values, limit) <= values.len(),
    decreases values.len(),
{
    assert(values.push(value).drop_last() =~= values);
    if values.len() > 0 {
        values_from_one_on_are_counted(values.drop_last(), value, limit);
    }
}

/// One number more is counted exactly if it is finite and not above the limit.
pub proof fn finite_numbers_are_counted(values: Seq<Real32>, value: Real32, limit: Real32)
    ensures
        is_finite_32(value) && value.le(limit) ==> finite_up_to(
            values.push(value),
            limit.order_key(),
        ) == finite_up_to(values, limit.order_key()) + 1,
        !is_finite_32(value) || limit.lt(value) ==> finite_up_to(
            values.push(value),
            limit.order_key(),
        ) == finite_up_to(values, limit.order_key()),
{
    assert(values.push(value).drop_last() =~= values);
}

/// A view that was cleared has no image, of no size and no generation, and is
/// not to be drawn.
pub proof fn cleared_views_have_no_image<S: RenderSettings, I>(view: RasterViewState<S, I>)
    requires
        view.is_clear(),
    ensures
        view.image is None,
        view.rendered_size.0 == 0,
        view.rendered_size.1 == 0,
        view.rendered_generation is None,
        !view.dirty,
{
}

} // verus!
