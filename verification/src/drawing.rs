//! Images of the data of plugins: how densely the points of a table lie, and
//! the values of an image, in the colours of a map.
use crate::analysis_runs::texts_of;
use crate::arithmetic::{
    ceiling, ceiling_up_to, floor, floor_in_64_bits, minus, minus_of, quotient, quotient_of,
    whole_numbers_are_divided_exactly, whole_numbers_are_subtracted_exactly,
    whole_numbers_are_their_own_floor,
};
use crate::binary32::{
    bits_to_24, from_whole, whole_32, whole_32_parts, whole_numbers_keep_order_32,
};
use crate::binary64::{
    whole_numbers_keep_order, Real32, Real64, INFINITY_BITS_32, ONE_BITS_32,
};
use crate::colormap::{color_at, index_of, Colormap, Rgb};
use crate::dataset_cache::Image2dV1;
use crate::host_data::{TableColumnData, TableDatasetV1, TableSchema};
use crate::raster::{
    bins_count, count_cells, counted, density_extent, density_problem, hits, image_floor, is_finite_32,
    is_percentile, least_finite, nonzero_up_to, percentile_finite, percentile_nonzero,
    percentile_place, plan_density_image, stands_at, Density2dRenderSettings, DensityExtent,
    GridCell, Image2dRenderSettings, PlotPoint, RasterViewState, RenderSettings, RenderStep,
    MAX_IMAGE_DIMENSION,
};
use crate::single::{
    halves_and_roots_are_exact, square_root, square_root_of, whole_numbers_are_calculated_exactly,
};
use crate::text::{decimal, push_decimal};
use crate::whole_text::{push_tenths, push_tenths_32, tenths_text, tenths_text_32};
use vstd::prelude::*;

verus! {

/// An image, row by row.
#[derive(Debug)]
pub struct RasterImage {
    pub width: usize,
    pub height: usize,
    pub pixels: Vec<Rgb>,
}

/// Whether a pixel has the colour of a value.
pub open spec fn shows(colormap: Colormap, value: Real32, pixel: Rgb) -> bool {
    (pixel.r as int, pixel.g as int, pixel.b as int) == color_at(colormap, index_of(value) as int)
}

// ---------------------------------------------------------------------------
// Densities
// ---------------------------------------------------------------------------
/// How many pixels of a size lie between two numbers: at least one, and not
/// more than an image can have.
pub open spec fn pixels_between(low: Real64, high: Real64, size: Real64) -> int {
    ceiling_up_to(
        quotient_of(minus_of(high, low).larger_of(Real64 { bits: 0 }), size),
        MAX_IMAGE_DIMENSION as int,
    )
}

fn count_pixels(low: Real64, high: Real64, size: Real64) -> (out: usize)
    ensures
        out == pixels_between(low, high, size),
        1 <= out <= MAX_IMAGE_DIMENSION,
{
    let span = minus(high, low).larger(Real64 { bits: 0 });
    ceiling(quotient(span, size), MAX_IMAGE_DIMENSION)
}

/// The lowest and the highest numbers on both axes.
pub open spec fn edges(extent: DensityExtent, size: Real64) -> (Real64, Real64, Real64, Real64) {
    match extent {
        DensityExtent::Area { x_min, x_max, y_min, y_max } => (x_min, x_max, y_min, y_max),
        DensityExtent::OnePixel => (Real64 { bits: 0 }, size, Real64 { bits: 0 }, size),
    }
}

/// The pixel that a point falls in.
pub open spec fn cell_of(point: PlotPoint, x_min: Real64, y_min: Real64, size: Real64) -> GridCell {
    GridCell {
        x: floor_in_64_bits(quotient_of(minus_of(point.x, x_min), size)) as i64,
        y: floor_in_64_bits(quotient_of(minus_of(point.y, y_min), size)) as i64,
    }
}

pub open spec fn cells_of(
    points: Seq<PlotPoint>,
    x_min: Real64,
    y_min: Real64,
    size: Real64,
) -> Seq<GridCell> {
    Seq::new(points.len(), |i: int| cell_of(points[i], x_min, y_min, size))
}

fn find_cells(points: &Vec<PlotPoint>, x_min: Real64, y_min: Real64, size: Real64) -> (out: Vec<
    GridCell,
>)
    ensures
        out@ == cells_of(points@, x_min, y_min, size),
{
    let mut cells: Vec<GridCell> = Vec::new();
    let mut i: usize = 0;
    while i < points.len()
        invariant
            i <= points@.len(),
            cells@.len() == i,
            forall|k: int| 0 <= k < i ==> cells@[k] == cell_of(points@[k], x_min, y_min, size),
        decreases points@.len() - i,
    {
        let point = points[i];
        cells.push(
            GridCell {
                x: floor(quotient(minus(point.x, x_min), size)),
                y: floor(quotient(minus(point.y, y_min), size)),
            },
        );
        i = i + 1;
    }
    assert(cells@ =~= cells_of(points@, x_min, y_min, size));
    cells
}

/// Whether a count is that of the brightest pixels: a percentile of the counts
/// that are not zero, and at least one.
pub open spec fn is_brightest(bins: Seq<u32>, percentile: Real32, top: Real32) -> bool {
    let one = Real32 { bits: ONE_BITS_32 };
    let n = nonzero_up_to(bins, u32::MAX as int);
    if n == 0 {
        top == whole_32(1).larger_of(one)
    } else {
        exists|value: u32| #[trigger]
            stands_at(bins, percentile_place((n - 1) as nat, percentile) as int, value as int)
                && top == whole_32(value as nat).larger_of(one)
    }
}

/// The value that a count is coloured by: the root of its share of the
/// brightest count.
pub open spec fn density_value(count: u32, top: Real32) -> Real32 {
    square_root_of(
        crate::single::quotient_of(whole_32(count as nat), top).within(
            Real32 { bits: 0 },
            Real32 { bits: ONE_BITS_32 },
        ),
    )
}

fn value_of_count(count: u32, top: Real32) -> (out: Real32)
    ensures
        out == density_value(count, top),
{
    let share = crate::single::quotient(from_whole(count as u64), top);
    square_root(share.clamped(Real32 { bits: 0 }, Real32 { bits: ONE_BITS_32 }))
}

/// Whether an image shows how densely points lie.
pub open spec fn is_density_image(
    points: Seq<PlotPoint>,
    extent: DensityExtent,
    size: Real64,
    percentile: Real32,
    colormap: Colormap,
    image: RasterImage,
) -> bool {
    let (x_min, x_max, y_min, y_max) = edges(extent, size);
    let cells = cells_of(points, x_min, y_min, size);
    &&& image.width == pixels_between(x_min, x_max, size)
    &&& image.height == pixels_between(y_min, y_max, size)
    &&& exists|bins: Seq<u32>, top: Real32|
        {
            &&& #[trigger] bins_count(bins, cells, image.width as int, image.height as int)
            &&& #[trigger] is_brightest(bins, percentile, top)
            &&& image.pixels@.len() == bins.len()
            &&& forall|i: int|
                0 <= i < bins.len() ==> shows(
                    colormap,
                    density_value(bins[i], top),
                    #[trigger] image.pixels@[i],
                )
        }
}

/// The points of the rows of two columns of numbers.
pub open spec fn points_of(x: TableColumnData, y: TableColumnData, rows: nat) -> Seq<PlotPoint> {
    Seq::new(
        rows,
        |row: int| PlotPoint { x: x.numeric_at(row)->0, y: y.numeric_at(row)->0 },
    )
}

/// Whether a result is the image of two columns, or why there is none.
pub open spec fn is_density_result(
    schema: TableSchema,
    dataset: TableDatasetV1,
    x_column: Seq<char>,
    y_column: Seq<char>,
    pixel_size: Real64,
    contrast_percentile: Real32,
    colormap: Colormap,
    out: Result<RasterImage, String>,
) -> bool {
    match out {
        Ok(image) => {
            let x = dataset.named(x_column)->0;
            let y = dataset.named(y_column)->0;
            &&& density_problem(schema, dataset, x_column, y_column) is None
            &&& is_density_image(
                points_of(x, y, dataset.rows as nat),
                density_extent(schema, x, y, x_column, y_column),
                pixel_size,
                contrast_percentile,
                colormap,
                image,
            )
        },
        Err(text) => density_problem(schema, dataset, x_column, y_column) == Some(text@),
    }
}

/// Draws how densely the rows of a table lie in the plane of two columns.
pub fn render_density_image(
    schema: &TableSchema,
    dataset: &TableDatasetV1,
    x_column: &str,
    y_column: &str,
    pixel_size: Real64,
    contrast_percentile: Real32,
    colormap: Colormap,
) -> (out: Result<RasterImage, String>)
    ensures
        is_density_result(
            *schema,
            *dataset,
            x_column@,
            y_column@,
            pixel_size,
            contrast_percentile,
            colormap,
            out,
        ),
{
    let plan = match plan_density_image(schema, dataset, x_column, y_column) {
        Ok(plan) => plan,
        Err(text) => return Err(text),
    };
    let zero = Real64 { bits: 0 };
    let (x_min, x_max, y_min, y_max) = match plan.extent {
        DensityExtent::Area { x_min, x_max, y_min, y_max } => (x_min, x_max, y_min, y_max),
        DensityExtent::OnePixel => (zero, pixel_size, zero, pixel_size),
    };
    let width: usize = count_pixels(x_min, x_max, pixel_size);
    let height: usize = count_pixels(y_min, y_max, pixel_size);
    let cells = find_cells(&plan.points, x_min, y_min, pixel_size);
    let bins = count_cells(&cells, width, height);
    let one = Real32 { bits: ONE_BITS_32 };
    let top = percentile_nonzero(&bins, contrast_percentile).larger(one);
    assert(is_brightest(bins@, contrast_percentile, top));
    let mut pixels: Vec<Rgb> = Vec::new();
    let mut i: usize = 0;
    while i < bins.len()
        invariant
            i <= bins@.len(),
            pixels@.len() == i,
            forall|k: int|
                0 <= k < i ==> shows(
                    colormap,
                    density_value(bins@[k], top),
                    #[trigger] pixels@[k],
                ),
        decreases bins@.len() - i,
    {
        pixels.push(colormap.lookup(value_of_count(bins[i], top)));
        i = i + 1;
    }
    let image = RasterImage { width, height, pixels };
    proof {
        let x = dataset.named(x_column@)->0;
        let y = dataset.named(y_column@)->0;
        assert(plan.points@ =~= points_of(x, y, dataset.rows as nat));
        assert(bins_count(bins@, cells@, width as int, height as int));
    }
    Ok(image)
}

// ---------------------------------------------------------------------------
// Images
// ---------------------------------------------------------------------------
/// The patterns of a millionth and of its opposite.
pub const MILLIONTH_BITS: u32 = 0x3586_37bd;

pub const MINUS_MILLIONTH_BITS: u32 = 0xb586_37bd;

/// The lowest value of an image.
pub open spec fn floor_of_image(pixels: Seq<Real32>) -> Real32 {
    match least_finite(pixels) {
        Some(least) => least,
        None => Real32 { bits: 0 },
    }
}

/// The range of the values that get different colours, for an image with this
/// highest value: never nothing.
pub open spec fn value_range(low: Real32, percentile: Real32) -> Real32 {
    let high = percentile.larger_of(
        crate::single::minus_of(low, Real32 { bits: MINUS_MILLIONTH_BITS }),
    );
    crate::single::minus_of(high, low).larger_of(Real32 { bits: MILLIONTH_BITS })
}

/// The value that a pixel is coloured by: its share of the range.
pub open spec fn image_value(value: Real32, low: Real32, range: Real32) -> Real32 {
    if is_finite_32(value) {
        crate::single::quotient_of(crate::single::minus_of(value, low), range).within(
            Real32 { bits: 0 },
            Real32 { bits: ONE_BITS_32 },
        )
    } else {
        Real32 { bits: 0 }
    }
}

fn value_of_pixel(value: Real32, low: Real32, range: Real32) -> (out: Real32)
    ensures
        out == image_value(value, low, range),
{
    let zero = Real32 { bits: 0 };
    let finite: bool = value.bits < INFINITY_BITS_32 || (0x8000_0000 <= value.bits && value.bits
        < 0xff80_0000);
    if finite {
        crate::single::quotient(crate::single::minus(value, low), range).clamped(
            zero,
            Real32 { bits: ONE_BITS_32 },
        )
    } else {
        zero
    }
}

/// Whether an image shows the values of a dataset.
pub open spec fn is_image_of(
    dataset: Image2dV1,
    contrast_percentile: Real32,
    colormap: Colormap,
    out: RasterImage,
) -> bool {
    let low = floor_of_image(dataset.pixels@);
    &&& out.width == dataset.width
    &&& out.height == dataset.height
    &&& out.pixels@.len() == dataset.pixels@.len()
    &&& exists|high: Real32|
        {
            &&& #[trigger] is_percentile(dataset.pixels@, contrast_percentile, high)
            &&& forall|i: int|
                0 <= i < dataset.pixels@.len() ==> shows(
                    colormap,
                    image_value(dataset.pixels@[i], low, value_range(low, high)),
                    #[trigger] out.pixels@[i],
                )
        }
}

/// Draws the values of an image. One that was found to be invalid is not drawn,
/// and its problem is handed on.
pub fn render_image2d_dataset(
    dataset: &Image2dV1,
    problem: Option<&str>,
    contrast_percentile: Real32,
    colormap: Colormap,
) -> (out: Result<RasterImage, String>)
    ensures
        match problem {
            Some(text) => out matches Err(error) && error@ == text@,
            None => out matches Ok(image) && is_image_of(
                *dataset,
                contrast_percentile,
                colormap,
                image,
            ),
        },
{
    if let Some(text) = problem {
        return Err(text.to_owned());
    }
    let low = image_floor(dataset);
    let percentile = percentile_finite(&dataset.pixels, contrast_percentile);
    assert(is_percentile(dataset.pixels@, contrast_percentile, percentile));
    let high = percentile.larger(
        crate::single::minus(low, Real32 { bits: MINUS_MILLIONTH_BITS }),
    );
    let range = crate::single::minus(high, low).larger(Real32 { bits: MILLIONTH_BITS });
    let mut pixels: Vec<Rgb> = Vec::new();
    let mut i: usize = 0;
    while i < dataset.pixels.len()
        invariant
            i <= dataset.pixels@.len(),
            pixels@.len() == i,
            forall|k: int|
                0 <= k < i ==> shows(
                    colormap,
                    image_value(dataset.pixels@[k], low, range),
                    #[trigger] pixels@[k],
                ),
        decreases dataset.pixels@.len() - i,
    {
        pixels.push(colormap.lookup(value_of_pixel(dataset.pixels[i], low, range)));
        i = i + 1;
    }
    let image = RasterImage { width: dataset.width, height: dataset.height, pixels };
    assert(is_image_of(*dataset, contrast_percentile, colormap, image));
    Ok(image)
}

// ---------------------------------------------------------------------------
// Views
// ---------------------------------------------------------------------------
/// The size of an image in words.
pub open spec fn size_text(size: (usize, usize)) -> Seq<char> {
    "Image: "@ + decimal(size.0 as nat) + " x "@ + decimal(size.1 as nat) + " px"@
}

fn size_line(size: (usize, usize)) -> (out: String)
    ensures
        out@ == size_text(size),
{
    let mut out = "Image: ".to_owned();
    push_decimal(&mut out, size.0 as u64);
    out.append(" x ");
    push_decimal(&mut out, size.1 as u64);
    out.append(" px");
    out
}

pub open spec fn contrast_text(percentile: Real32) -> Seq<char> {
    "Contrast: "@ + tenths_text_32(percentile) + "th percentile"@
}

fn contrast_line(percentile: Real32) -> (out: String)
    ensures
        out@ == contrast_text(percentile),
{
    let mut out = "Contrast: ".to_owned();
    push_tenths_32(&mut out, percentile);
    out.append("th percentile");
    out
}

fn colormap_line(colormap: Colormap) -> (out: String)
    ensures
        out@ == "Colormap: "@ + colormap.name(),
{
    let mut out = "Colormap: ".to_owned();
    out.append(colormap.label());
    out
}

fn count_line(label: &str, count: usize) -> (out: String)
    ensures
        out@ == label@ + decimal(count as nat),
{
    let mut out = label.to_owned();
    push_decimal(&mut out, count as u64);
    out
}

impl<S: RenderSettings, I> RasterViewState<S, I> {
    /// Whether the image of a generation of the data is still to be drawn.
    pub open spec fn is_outdated(self, generation: u64) -> bool {
        self.dirty || self.rendered_generation != Some(generation)
    }
}

impl<I> RasterViewState<Density2dRenderSettings, I> {
    /// What is told below the image of a table.
    pub fn captions(&self, rows: usize) -> (out: Vec<String>)
        ensures
            texts_of(out@) == seq![
                "Rows: "@ + decimal(rows as nat),
                size_text(self.rendered_size),
                "Pixel size: "@ + tenths_text(self.settings.pixel_size),
                contrast_text(self.settings.contrast_percentile),
                "Colormap: "@ + self.settings.colormap.name(),
            ],
    {
        let mut pixel_size = "Pixel size: ".to_owned();
        push_tenths(&mut pixel_size, self.settings.pixel_size);
        let mut out: Vec<String> = Vec::new();
        out.push(count_line("Rows: ", rows));
        out.push(size_line(self.rendered_size));
        out.push(pixel_size);
        out.push(contrast_line(self.settings.contrast_percentile));
        out.push(colormap_line(self.settings.colormap));
        assert(texts_of(out@) =~= seq![
            "Rows: "@ + decimal(rows as nat),
            size_text(self.rendered_size),
            "Pixel size: "@ + tenths_text(self.settings.pixel_size),
            contrast_text(self.settings.contrast_percentile),
            "Colormap: "@ + self.settings.colormap.name(),
        ]);
        out
    }

    /// Draws the image that is to be shown, where it is not there yet. Without
    /// data the old image is dropped.
    pub fn render_if_needed(
        &mut self,
        schema: &TableSchema,
        dataset: Option<&TableDatasetV1>,
        dataset_generation: u64,
        x_column: &str,
        y_column: &str,
    ) -> (out: Result<Option<RasterImage>, String>)
        ensures
            match dataset {
                Some(dataset) if old(self).is_outdated(dataset_generation) => {
                    let settings = old(self).settings;
                    &&& *final(self) == *old(self)
                    &&& out matches Ok(image) ==> image is Some
                    &&& is_density_result(
                        *schema,
                        *dataset,
                        x_column@,
                        y_column@,
                        settings.pixel_size,
                        settings.contrast_percentile,
                        settings.colormap,
                        match out {
                            Ok(image) => Ok(image->0),
                            Err(text) => Err(text),
                        },
                    )
                },
                _ => {
                    &&& out matches Ok(image) && image is None
                    &&& final(self).settings == old(self).settings
                    &&& if old(self).is_outdated(dataset_generation) {
                        final(self).is_clear()
                    } else {
                        *final(self) == *old(self)
                    }
                },
            },
    {
        let step = self.render_step(dataset.is_some(), dataset_generation);
        match dataset {
            Some(dataset) if step == RenderStep::Draw => {
                let settings = self.settings;
                match render_density_image(
                    schema,
                    dataset,
                    x_column,
                    y_column,
                    settings.pixel_size,
                    settings.contrast_percentile,
                    settings.colormap,
                ) {
                    Ok(image) => Ok(Some(image)),
                    Err(text) => Err(text),
                }
            },
            _ => Ok(None),
        }
    }
}

impl<I> RasterViewState<Image2dRenderSettings, I> {
    /// What is told below an image.
    pub fn captions(&self, pixels: usize) -> (out: Vec<String>)
        ensures
            texts_of(out@) == seq![
                "Pixels: "@ + decimal(pixels as nat),
                size_text(self.rendered_size),
                contrast_text(self.settings.contrast_percentile),
                "Colormap: "@ + self.settings.colormap.name(),
            ],
    {
        let mut out: Vec<String> = Vec::new();
        out.push(count_line("Pixels: ", pixels));
        out.push(size_line(self.rendered_size));
        out.push(contrast_line(self.settings.contrast_percentile));
        out.push(colormap_line(self.settings.colormap));
        assert(texts_of(out@) =~= seq![
            "Pixels: "@ + decimal(pixels as nat),
            size_text(self.rendered_size),
            contrast_text(self.settings.contrast_percentile),
            "Colormap: "@ + self.settings.colormap.name(),
        ]);
        out
    }

    /// Draws the image that is to be shown, where it is not there yet. Without
    /// data the old image is dropped. `problem` is what is wrong with the data.
    pub fn render_if_needed(
        &mut self,
        dataset: Option<&Image2dV1>,
        problem: Option<&str>,
        dataset_generation: u64,
    ) -> (out: Result<Option<RasterImage>, String>)
        ensures
            match dataset {
                Some(dataset) if old(self).is_outdated(dataset_generation) => {
                    &&& *final(self) == *old(self)
                    &&& match problem {
                        Some(text) => out matches Err(error) && error@ == text@,
                        None => out matches Ok(Some(image)) && is_image_of(
                            *dataset,
                            old(self).settings.contrast_percentile,
                            old(self).settings.colormap,
                            image,
                        ),
                    }
                },
                _ => {
                    &&& out matches Ok(None)
                    &&& final(self).settings == old(self).settings
                    &&& if old(self).is_outdated(dataset_generation) {
                        final(self).is_clear()
                    } else {
                        *final(self) == *old(self)
                    }
                },
            },
    {
        let step = self.render_step(dataset.is_some(), dataset_generation);
        match dataset {
            Some(dataset) if step == RenderStep::Draw => match render_image2d_dataset(
                dataset,
                problem,
                self.settings.contrast_percentile,
                self.settings.colormap,
            ) {
                Ok(image) => Ok(Some(image)),
                Err(error) => Err(error),
            },
            _ => Ok(None),
        }
    }
}

// ---------------------------------------------------------------------------
// Laws
// ---------------------------------------------------------------------------
/// A point falls in the pixel that is as many pixels to the right of the left
/// edge, and below the upper edge, as it is away from them.
pub proof fn points_fall_in_their_pixel(
    point: PlotPoint,
    x_min: Real64,
    y_min: Real64,
    size: Real64,
    left: nat,
    top: nat,
    s: nat,
    column: nat,
    row: nat,
    dx: Real64,
    dy: Real64,
    cx: Real64,
    cy: Real64,
)
    requires
        s > 0,
        x_min.is_whole(left),
        y_min.is_whole(top),
        size.is_whole(s),
        point.x.is_whole(left + column * s),
        point.y.is_whole(top + row * s),
        dx.is_whole(column * s),
        dy.is_whole(row * s),
        cx.is_whole(column),
        cy.is_whole(row),
    ensures
        cell_of(point, x_min, y_min, size).x == column,
        cell_of(point, x_min, y_min, size).y == row,
{
    whole_numbers_are_subtracted_exactly(point.x, left + column * s, x_min, left, dx);
    whole_numbers_are_subtracted_exactly(point.y, top + row * s, y_min, top, dy);
    whole_numbers_are_divided_exactly(dx, column, s, size, cx);
    whole_numbers_are_divided_exactly(dy, row, s, size, cy);
    whole_numbers_are_their_own_floor(cx, column, 1);
    whole_numbers_are_their_own_floor(cy, row, 1);
}

/// An image is as many pixels wide as the area has pixel sizes, at least one
/// and at most 8192.
pub proof fn images_are_as_large_as_their_area(
    low: Real64,
    high: Real64,
    size: Real64,
    a: nat,
    s: nat,
    n: nat,
    span: Real64,
    count: Real64,
)
    requires
        s > 0,
        low.is_whole(a),
        high.is_whole(a + n * s),
        size.is_whole(s),
        span.is_whole(n * s),
        count.is_whole(n),
    ensures
        1 <= n <= 8192 ==> pixels_between(low, high, size) == n,
        n > 8192 ==> pixels_between(low, high, size) == 8192,
        n == 0 ==> pixels_between(low, high, size) == 1,
{
    whole_numbers_are_subtracted_exactly(high, a + n * s, low, a, span);
    let zero = Real64 { bits: 0 };
    whole_numbers_keep_order(span, n * s, zero, 0);
    whole_numbers_keep_order(zero, 0, span, n * s);
    if n == 0 {
        assert(n * s == 0) by (nonlinear_arith)
            requires
                n == 0,
        ;
    }
    assert(span.larger_of(zero) == span);
    whole_numbers_are_divided_exactly(span, n, s, size, count);
    whole_numbers_are_their_own_floor(count, n, 8192);
}

/// A pixel without points has the lowest colour of the map, and one with the
/// brightest count the highest.
pub proof fn counts_are_coloured_up_to_the_brightest(colormap: Colormap, count: u32, pixel: Rgb)
    requires
        0 < count < 0x100_0000,
    ensures
        shows(colormap, density_value(0, whole_32(count as nat)), pixel) ==> (
            pixel.r as int,
            pixel.g as int,
            pixel.b as int,
        ) == color_at(colormap, 0),
        shows(colormap, density_value(count, whole_32(count as nat)), pixel) ==> (
            pixel.r as int,
            pixel.g as int,
            pixel.b as int,
        ) == color_at(colormap, 255),
{
    let n = count as nat;
    whole_numbers_are_calculated_exactly(0, n);
    whole_numbers_are_calculated_exactly(1, n);
    whole_numbers_keep_order_32(0, n);
    whole_numbers_keep_order_32(1, n);
    halves_and_roots_are_exact(0);
    assert(0 * n == 0 && 1 * n == n) by (nonlinear_arith);
    assert(density_value(0, whole_32(n)) == (Real32 { bits: 0 }));
    assert(density_value(count, whole_32(n)).bits == ONE_BITS_32);
}

/// A value is coloured by its share of the range: the lowest one by the lowest
/// colour, and what is as high as the range by the highest. What is no finite
/// number has the lowest colour.
pub proof fn values_are_coloured_by_their_share(low: nat, range: nat, value: Real32)
    requires
        range > 0,
        low + range < 0x100_0000,
    ensures
        index_of(image_value(whole_32(low), whole_32(low), whole_32(range))) == 0,
        index_of(image_value(whole_32(low + range), whole_32(low), whole_32(range))) == 255,
        !is_finite_32(value) ==> index_of(image_value(value, whole_32(low), whole_32(range))) == 0,
{
    whole_numbers_are_calculated_exactly(low, low);
    whole_numbers_are_calculated_exactly(low + range, low);
    whole_numbers_are_calculated_exactly(0, range);
    whole_numbers_are_calculated_exactly(1, range);
    whole_numbers_keep_order_32(low, low + range);
    whole_numbers_keep_order_32(0, range);
    whole_numbers_keep_order_32(1, range);
    assert(0 * range == 0 && 1 * range == range) by (nonlinear_arith);
    whole_numbers_are_finite(low);
    whole_numbers_are_finite(low + range);
}

proof fn whole_numbers_are_finite(n: nat)
    requires
        n < 0x100_0000,
    ensures
        is_finite_32(whole_32(n)),
{
    if n > 0 {
        let k = bits_to_24(n);
        whole_32_parts(n, k);
    }
}

/// An image shows each value of a dataset at its own place, row by row, and has
/// the size of the dataset: where two places hold the same value they have the
/// same colour, and the place of the lowest value has the lowest colour.
pub proof fn images_show_each_value_at_its_place(
    dataset: Image2dV1,
    percentile: Real32,
    colormap: Colormap,
    image: RasterImage,
    i: int,
    j: int,
)
    requires
        is_image_of(dataset, percentile, colormap, image),
        0 <= i < dataset.pixels@.len(),
        0 <= j < dataset.pixels@.len(),
    ensures
        image.width == dataset.width,
        image.height == dataset.height,
        dataset.pixels@[i] == dataset.pixels@[j] ==> image.pixels@[i] == image.pixels@[j],
        !is_finite_32(dataset.pixels@[i]) ==> (
            image.pixels@[i].r as int,
            image.pixels@[i].g as int,
            image.pixels@[i].b as int,
        ) == color_at(colormap, 0),
{
    assert(index_of(Real32 { bits: 0 }) == 0);
}

/// The points of a plot are the numbers of its two columns, row by row.
pub proof fn plots_take_their_points_from_the_rows(
    x: TableColumnData,
    y: TableColumnData,
    rows: nat,
    r: int,
)
    requires
        0 <= r < rows,
        r < x.numeric@.len(),
        r < y.numeric@.len(),
        x.numeric@[r] is Some,
        y.numeric@[r] is Some,
    ensures
        points_of(x, y, rows).len() == rows,
        points_of(x, y, rows)[r].x == x.numeric@[r]->0,
        points_of(x, y, rows)[r].y == y.numeric@[r]->0,
{
}

/// The image of a density has the width of its area to the right and its
/// height downwards, and two of its pixels that hold equally many points look
/// alike.
pub proof fn density_images_show_how_many_points_lie_there(
    points: Seq<PlotPoint>,
    extent: DensityExtent,
    size: Real64,
    percentile: Real32,
    colormap: Colormap,
    image: RasterImage,
    a: (int, int),
    b: (int, int),
    i: int,
    j: int,
)
    requires
        is_density_image(points, extent, size, percentile, colormap, image),
        0 <= a.0 < image.width && 0 <= a.1 < image.height,
        0 <= b.0 < image.width && 0 <= b.1 < image.height,
        i == a.1 * image.width + a.0,
        j == b.1 * image.width + b.0,
    ensures
        image.pixels@.len() == image.width * image.height,
        extent matches DensityExtent::Area { x_min, x_max, y_min, y_max } ==> image.width
            == pixels_between(x_min, x_max, size) && image.height == pixels_between(
            y_min,
            y_max,
            size,
        ),
        extent is OnePixel ==> image.width == image.height,
        ({
            let (x_min, x_max, y_min, y_max) = edges(extent, size);
            let cells = cells_of(points, x_min, y_min, size);
            hits(cells, a.0, a.1) == hits(cells, b.0, b.1) ==> exists|value: Real32| #[trigger]
                shows(colormap, value, image.pixels@[i]) && shows(colormap, value, image.pixels@[j])
        }),
{
    let (x_min, x_max, y_min, y_max) = edges(extent, size);
    let cells = cells_of(points, x_min, y_min, size);
    let (bins, top) = choose|bins: Seq<u32>, top: Real32|
        {
            &&& #[trigger] bins_count(bins, cells, image.width as int, image.height as int)
            &&& #[trigger] is_brightest(bins, percentile, top)
            &&& image.pixels@.len() == bins.len()
            &&& forall|i: int|
                0 <= i < bins.len() ==> shows(
                    colormap,
                    density_value(bins[i], top),
                    #[trigger] image.pixels@[i],
                )
        };
    let (w, h) = (image.width as int, image.height as int);
    if hits(cells, a.0, a.1) == hits(cells, b.0, b.1) {
        assert(0 <= i < w * h) by (nonlinear_arith)
            requires
                i == a.1 * w + a.0,
                0 <= a.0 < w,
                0 <= a.1 < h,
        ;
        assert(0 <= j < w * h) by (nonlinear_arith)
            requires
                j == b.1 * w + b.0,
                0 <= b.0 < w,
                0 <= b.1 < h,
        ;
        assert(bins[a.1 * w + a.0] == counted(hits(cells, a.0, a.1)));
        assert(bins[b.1 * w + b.0] == counted(hits(cells, b.0, b.1)));
        assert(bins[i] == bins[j]);
        let value = density_value(bins[i], top);
        assert(shows(colormap, value, image.pixels@[i]));
        assert(shows(colormap, value, image.pixels@[j]));
    }
}

/// A drawing is up to date for the generation that it was drawn from and for
/// no other, and for none once it is to be drawn anew.
pub proof fn drawings_are_of_one_generation<S: RenderSettings>(
    state: RasterViewState<S, RasterImage>,
    a: u64,
    b: u64,
)
    ensures
        !state.is_outdated(a) && !state.is_outdated(b) ==> a == b,
        state.dirty ==> state.is_outdated(a),
        !state.dirty && state.rendered_generation == Some(a) ==> !state.is_outdated(a),
{
}

/// The size of an image is told as its width, then its height. An image
/// without any number has its floor at zero.
pub proof fn widths_are_told_first(width: usize, height: usize, pixels: Seq<Real32>)
    ensures
        size_text((width, height)) == "Image: "@ + decimal(width as nat) + " x "@ + decimal(
            height as nat,
        ) + " px"@,
        least_finite(pixels) is None ==> floor_of_image(pixels) == (Real32 { bits: 0 }),
        least_finite(pixels) matches Some(least) ==> floor_of_image(pixels) == least,
{
}

/// The lowest value of an image, and what is no number, has the first colour.
pub proof fn lowest_values_have_the_first_colour(low: Real32, range: Real32, value: Real32)
    requires
        is_finite_32(low),
        0 < range.bits < INFINITY_BITS_32,
    ensures
        image_value(low, low, range) == (Real32 { bits: 0 }),
        !is_finite_32(value) ==> image_value(value, low, range) == (Real32 { bits: 0 }),
{
    crate::single::numbers_without_a_value_stay_so_32(low, low);
    let zero = Real32 { bits: 0 };
    assert(crate::single::minus_of(low, low) == zero);
    assert(crate::single::quotient_of(zero, range) == zero);
}

} // verus!
