//! Hot pixels: which pixels stand out of a smoothed frame, how this is
//! reported, and how they are copied into the sensor's pixel mask.
use crate::binary32::{from_whole, whole_32, whole_numbers_keep_order_32};
use crate::binary64::{Real32, INFINITY_BITS_32, ONE_BITS_32};
use crate::single::{
    minus, minus_of, plus, plus_of, quotient, quotient_of, times, times_of,
    whole_numbers_are_calculated_exactly,
};
use crate::text::{decimal, push_decimal};
use vstd::prelude::*;

verus! {

/// The colour that marks hot pixels on the preview.
pub const HOTPIXEL_OVERLAY_COLOR: [u8; 4] = [255, 32, 32, 160];

/// The number of pixels that the sensor can mask.
pub const IMX636_DEM_SLOTS: usize = 64;

/// A pixel of the sensor.
#[derive(Debug, Clone, Copy, PartialEq, Eq, Structural)]
pub struct SensorPixel {
    pub x: u16,
    pub y: u16,
}

#[derive(Debug, Clone, Copy, PartialEq, Eq, Structural)]
pub struct FrameDims {
    pub width: u16,
    pub height: u16,
}

#[derive(Debug, Clone, Copy, PartialEq, Eq, Structural)]
pub enum AnalysisSeverity {
    Info,
    Warning,
    Error,
}

/// How serious a number of hot pixels is.
pub open spec fn severity_of(count: nat) -> AnalysisSeverity {
    if count > 20 {
        AnalysisSeverity::Error
    } else if count > 5 {
        AnalysisSeverity::Warning
    } else {
        AnalysisSeverity::Info
    }
}

/// A warning of the analysis.
#[derive(Debug)]
pub struct AnalysisWarning {
    pub source: String,
    pub severity: AnalysisSeverity,
    pub message: String,
}

/// Something that is drawn over the preview.
#[derive(Debug)]
pub enum Overlay {
    HighlightPixels { pixels: Vec<SensorPixel>, color: [u8; 4] },
}

/// What the analysis of a frame found.
#[derive(Debug)]
pub struct AnalysisOutput {
    pub overlays: Vec<Overlay>,
    pub warnings: Vec<AnalysisWarning>,
}

impl Default for AnalysisOutput {
    fn default() -> (out: Self)
        ensures
            out.overlays@.len() == 0,
            out.warnings@.len() == 0,
    {
        AnalysisOutput { overlays: Vec::new(), warnings: Vec::new() }
    }
}

/// The detection of hot pixels: its settings, and the event counts of the
/// pixels, smoothed over the frames so far.
#[derive(Debug)]
pub struct BuiltInHotpixelDetection {
    pub enabled: bool,
    pub history_depth: u32,
    pub threshold_factor: Real32,
    pub min_absolute_count: u16,
    pub ema_counts: Vec<Real32>,
    pub frame_dims: Option<FrameDims>,
    pub last_detected_pixels: Vec<SensorPixel>,
    pub last_detected_count: usize,
    pub ui_dirty: bool,
}

impl Default for BuiltInHotpixelDetection {
    fn default() -> (out: Self)
        ensures
            out.enabled,
            out.history_depth == 16,
            out.threshold_factor.bits == 0x4120_0000,
            out.min_absolute_count == 5,
            out.ema_counts@.len() == 0,
            out.frame_dims is None,
            out.last_detected_pixels@.len() == 0,
            out.last_detected_count == 0,
            !out.ui_dirty,
    {
        BuiltInHotpixelDetection {
            enabled: true,
            history_depth: 16,
            threshold_factor: Real32 { bits: 0x4120_0000 },
            min_absolute_count: 5,
            ema_counts: Vec::new(),
            frame_dims: None,
            last_detected_pixels: Vec::new(),
            last_detected_count: 0,
            ui_dirty: false,
        }
    }
}

/// The weight of a new frame among `depth` frames.
pub open spec fn frame_weight(depth: u32) -> Real32 {
    quotient_of(
        Real32 { bits: ONE_BITS_32 },
        whole_32(
            if depth == 0 {
                1
            } else {
                depth as nat
            },
        ),
    )
}

/// The weight of the frames before it.
pub open spec fn past_weight(depth: u32) -> Real32 {
    minus_of(Real32 { bits: ONE_BITS_32 }, frame_weight(depth))
}

fn frame_weights(depth: u32) -> (out: (Real32, Real32))
    ensures
        out.0 == frame_weight(depth),
        out.1 == past_weight(depth),
{
    let one = Real32 { bits: ONE_BITS_32 };
    let frames: u64 = if depth == 0 {
        1
    } else {
        depth as u64
    };
    let weight = quotient(one, from_whole(frames));
    (weight, minus(one, weight))
}

/// The counts after a frame: the weighted mean of the new and the old ones.
pub open spec fn smoothed(counts: Seq<Real32>, pixels: Seq<u16>, depth: u32) -> Seq<Real32> {
    Seq::new(
        pixels.len(),
        |i: int|
            plus_of(
                times_of(frame_weight(depth), whole_32(pixels[i] as nat)),
                times_of(past_weight(depth), counts[i]),
            ),
    )
}

/// The sum of counts, added up in their order.
pub open spec fn total_of(counts: Seq<Real32>) -> Real32
    decreases counts.len(),
{
    if counts.len() == 0 {
        Real32 { bits: 0 }
    } else {
        plus_of(total_of(counts.drop_last()), counts.last())
    }
}

/// The count from which a pixel is hot: a multiple of the mean, or the smallest
/// count that can be hot.
pub open spec fn threshold_of(counts: Seq<Real32>, factor: Real32, least: u16) -> Real32 {
    let mean = quotient_of(total_of(counts), whole_32(counts.len()));
    times_of(mean, factor).larger_of(whole_32(least as nat))
}

/// As many counts of zero.
pub open spec fn zeros(n: nat) -> Seq<Real32> {
    Seq::new(n, |i: int| Real32 { bits: 0 })
}

fn zero_counts(n: usize) -> (out: Vec<Real32>)
    ensures
        out@ == zeros(n as nat),
{
    let mut out: Vec<Real32> = Vec::new();
    while out.len() < n
        invariant
            out@.len() <= n,
            out@ =~= zeros(out@.len()),
        decreases n - out@.len(),
    {
        out.push(Real32 { bits: 0 });
    }
    out
}

/// The pixel at an index of a frame.
pub open spec fn pixel_at(index: int, width: u16) -> SensorPixel {
    SensorPixel { x: (index % width as int) as u16, y: (index / width as int) as u16 }
}

/// The pixels whose smoothed count is not below the threshold, in the order of
/// the frame.
pub open spec fn hot_pixels(counts: Seq<Real32>, threshold: Real32, width: u16) -> Seq<SensorPixel>
    decreases counts.len(),
{
    if counts.len() == 0 {
        seq![]
    } else {
        let before = hot_pixels(counts.drop_last(), threshold, width);
        if counts.last().lt(threshold) {
            before
        } else {
            before.push(pixel_at(counts.len() - 1, width))
        }
    }
}

fn find_hot_pixels(counts: &Vec<Real32>, threshold: Real32, width: u16) -> (out: Vec<SensorPixel>)
    requires
        width > 0,
    ensures
        out@ == hot_pixels(counts@, threshold, width),
{
    let mut found: Vec<SensorPixel> = Vec::new();
    let mut i: usize = 0;
    assert(counts@.take(0) =~= Seq::<Real32>::empty());
    assert(found@ =~= hot_pixels(counts@.take(0), threshold, width));
    while i < counts.len()
        invariant
            i <= counts@.len(),
            width > 0,
            found@ == hot_pixels(counts@.take(i as int), threshold, width),
        decreases counts@.len() - i,
    {
        assert(counts@.take(i + 1).drop_last() =~= counts@.take(i as int));
        if !counts[i].less(threshold) {
            let w: usize = width as usize;
            found.push(SensorPixel { x: (i % w) as u16, y: (i / w) as u16 });
        }
        i = i + 1;
    }
    assert(counts@.take(counts@.len() as int) =~= counts@);
    found
}

/// Whether `now` is `before` and, where there are hot pixels, what is reported
/// of them: they are marked, and there is a warning.
pub open spec fn reports(before: AnalysisOutput, hot: Seq<SensorPixel>, now: AnalysisOutput) -> bool {
    if hot.len() == 0 {
        now == before
    } else {
        &&& now.overlays@.len() == before.overlays@.len() + 1
        &&& now.overlays@.drop_last() == before.overlays@
        &&& now.overlays@.last() matches Overlay::HighlightPixels { pixels, color } && pixels@
            == hot && color@ == HOTPIXEL_OVERLAY_COLOR@
        &&& now.warnings@.len() == before.warnings@.len() + 1
        &&& now.warnings@.drop_last() == before.warnings@
        &&& now.warnings@.last().source@ == "Hotpixel Detection"@
        &&& now.warnings@.last().severity == severity_of(hot.len())
        &&& now.warnings@.last().message@ == decimal(hot.len())
            + " suspected hot pixels detected"@
    }
}

impl BuiltInHotpixelDetection {
    pub fn enabled(&self) -> (out: bool)
        ensures
            out == self.enabled,
    {
        self.enabled
    }

    pub fn is_dirty(&self) -> (out: bool)
        ensures
            out == self.ui_dirty,
    {
        self.ui_dirty
    }

    pub fn detected_pixels(&self) -> (out: &Vec<SensorPixel>)
        ensures
            *out == self.last_detected_pixels,
    {
        &self.last_detected_pixels
    }

    /// Forgets what was found and the frames so far.
    pub fn reset(&mut self)
        ensures
            final(self).ema_counts@ == zeros(old(self).ema_counts@.len()),
            final(self).last_detected_pixels@.len() == 0,
            *final(self) == (BuiltInHotpixelDetection {
                ema_counts: final(self).ema_counts,
                frame_dims: None,
                last_detected_pixels: final(self).last_detected_pixels,
                last_detected_count: 0,
                ui_dirty: false,
                ..*old(self)
            }),
    {
        self.ema_counts = zero_counts(self.ema_counts.len());
        self.frame_dims = None;
        self.last_detected_pixels.clear();
        self.last_detected_count = 0;
        self.ui_dirty = false;
    }

    /// Switches the detection on or off; a change forgets what was found.
    /// Tells whether there was a change.
    pub fn set_enabled(&mut self, enabled: bool) -> (changed: bool)
        ensures
            changed == (old(self).enabled != enabled),
            !changed ==> *final(self) == *old(self),
            changed ==> {
                &&& final(self).ema_counts@ == zeros(old(self).ema_counts@.len())
                &&& final(self).last_detected_pixels@.len() == 0
                &&& *final(self) == (BuiltInHotpixelDetection {
                    enabled,
                    ema_counts: final(self).ema_counts,
                    frame_dims: None,
                    last_detected_pixels: final(self).last_detected_pixels,
                    last_detected_count: 0,
                    ui_dirty: true,
                    ..*old(self)
                })
            },
    {
        if self.enabled == enabled {
            return false;
        }
        self.enabled = enabled;
        self.reset();
        self.ui_dirty = true;
        true
    }

    /// Marks the settings as changed by hand.
    pub fn settings_changed(&mut self, changed: bool)
        ensures
            *final(self) == (BuiltInHotpixelDetection {
                ui_dirty: old(self).ui_dirty || changed,
                ..*old(self)
            }),
    {
        self.ui_dirty = self.ui_dirty || changed;
    }

    /// The counts that a frame is smoothed into: zeros where the frame is of
    /// another shape than the one before it.
    pub open spec fn counts_before(self, dims: FrameDims, pixels: nat) -> Seq<Real32> {
        if self.frame_dims == Some(dims) && self.ema_counts@.len() == pixels {
            self.ema_counts@
        } else {
            zeros(pixels)
        }
    }

    fn ensure_state(&mut self, dims: FrameDims, pixels: usize)
        ensures
            final(self).ema_counts@ == old(self).counts_before(dims, pixels as nat),
            *final(self) == (BuiltInHotpixelDetection {
                ema_counts: final(self).ema_counts,
                frame_dims: Some(dims),
                ..*old(self)
            }),
    {
        let same = match self.frame_dims {
            Some(d) => d == dims && self.ema_counts.len() == pixels,
            None => false,
        };
        if !same {
            self.ema_counts = zero_counts(pixels);
            self.frame_dims = Some(dims);
        }
    }

    /// Smooths a frame into the counts, and adds them up.
    fn smooth(&mut self, pixels: &Vec<u16>) -> (total: Real32)
        requires
            old(self).ema_counts@.len() == pixels@.len(),
        ensures
            final(self).ema_counts@ == smoothed(
                old(self).ema_counts@,
                pixels@,
                old(self).history_depth,
            ),
            *final(self) == (BuiltInHotpixelDetection {
                ema_counts: final(self).ema_counts,
                ..*old(self)
            }),
            total == total_of(final(self).ema_counts@),
    {
        let (alpha, decay) = frame_weights(self.history_depth);
        let ghost before = self.ema_counts@;
        let ghost after = smoothed(before, pixels@, self.history_depth);
        let mut sum = Real32 { bits: 0 };
        let mut counts: Vec<Real32> = Vec::new();
        let mut i: usize = 0;
        assert(counts@ =~= after.take(0));
        while i < pixels.len()
            invariant
                i <= pixels@.len(),
                self == old(self),
                before == self.ema_counts@,
                before.len() == pixels@.len(),
                after == smoothed(before, pixels@, self.history_depth),
                alpha == frame_weight(self.history_depth),
                decay == past_weight(self.history_depth),
                counts@ == after.take(i as int),
                sum == total_of(counts@),
            decreases pixels@.len() - i,
        {
            let count = plus(
                times(alpha, from_whole(pixels[i] as u64)),
                times(decay, self.ema_counts[i]),
            );
            let ghost shorter = counts@;
            counts.push(count);
            sum = plus(sum, count);
            proof {
                assert(count == after[i as int]);
                assert(counts@ =~= after.take(i + 1));
                assert(counts@.drop_last() =~= shorter);
            }
            i = i + 1;
        }
        assert(after.take(after.len() as int) =~= after);
        self.ema_counts = counts;
        sum
    }

    /// Smooths a frame into the counts, and finds the pixels that stand out.
    pub fn process_frame(
        &mut self,
        dims: FrameDims,
        pixels: &Vec<u16>,
        output: &mut AnalysisOutput,
    )
        requires
            dims.width > 0 || pixels@.len() == 0 || !old(self).enabled,
        ensures
            final(self).last_detected_count == final(self).last_detected_pixels@.len(),
            ({
                let works = old(self).enabled && pixels@.len() > 0;
                let counts = smoothed(
                    old(self).counts_before(dims, pixels@.len()),
                    pixels@,
                    old(self).history_depth,
                );
                let threshold = threshold_of(
                    counts,
                    old(self).threshold_factor,
                    old(self).min_absolute_count,
                );
                let hot = if works {
                    hot_pixels(counts, threshold, dims.width)
                } else {
                    seq![]
                };
                &&& final(self).last_detected_pixels@ == hot
                &&& reports(*old(output), hot, *final(output))
                &&& works ==> final(self).ema_counts@ == counts
                &&& !works ==> final(self).ema_counts == old(self).ema_counts
                &&& *final(self) == (BuiltInHotpixelDetection {
                    ema_counts: final(self).ema_counts,
                    frame_dims: if works {
                        Some(dims)
                    } else {
                        old(self).frame_dims
                    },
                    last_detected_pixels: final(self).last_detected_pixels,
                    last_detected_count: final(self).last_detected_count,
                    ui_dirty: false,
                    ..*old(self)
                })
            }),
    {
        self.ui_dirty = false;
        self.last_detected_pixels.clear();
        self.last_detected_count = 0;
        if !self.enabled || pixels.len() == 0 {
            return ;
        }
        self.ensure_state(dims, pixels.len());
        let total = self.smooth(pixels);
        let least = from_whole(self.min_absolute_count as u64);
        let mean = quotient(total, from_whole(pixels.len() as u64));
        let threshold = times(mean, self.threshold_factor).larger(least);
        let hot = find_hot_pixels(&self.ema_counts, threshold, dims.width);
        let count: usize = hot.len();
        if count == 0 {
            assert(self.last_detected_pixels@ =~= hot@);
            return ;
        }
        self.last_detected_pixels = hot.clone();
        assert(self.last_detected_pixels@ =~= hot@);
        self.last_detected_count = count;
        let mut message = String::new();
        push_decimal(&mut message, count as u64);
        message.append(" suspected hot pixels detected");
        assert(message@ =~= decimal(count as nat) + " suspected hot pixels detected"@);
        let severity = if count > 20 {
            AnalysisSeverity::Error
        } else if count > 5 {
            AnalysisSeverity::Warning
        } else {
            AnalysisSeverity::Info
        };
        output.overlays.push(
            Overlay::HighlightPixels { pixels: hot, color: HOTPIXEL_OVERLAY_COLOR },
        );
        output.warnings.push(
            AnalysisWarning { source: "Hotpixel Detection".to_owned(), severity, message },
        );
        assert(output.overlays@.drop_last() =~= old(output).overlays@);
        assert(output.warnings@.drop_last() =~= old(output).warnings@);
    }

    /// What the settings say of the last frame.
    pub fn status_text(&self) -> (out: String)
        ensures
            out@ == "Last frame: "@ + decimal(self.last_detected_count as nat)
                + " detected hotpixels."@,
    {
        let mut out = "Last frame: ".to_owned();
        push_decimal(&mut out, self.last_detected_count as u64);
        out.append(" detected hotpixels.");
        out
    }
}

/// A uniform frame has no hot pixels where the threshold is above its counts.
pub proof fn cool_frames_have_none(counts: Seq<Real32>, threshold: Real32, width: u16)
    requires
        forall|i: int| 0 <= i < counts.len() ==> (#[trigger] counts[i]).lt(threshold),
    ensures
        hot_pixels(counts, threshold, width).len() == 0,
    decreases counts.len(),
{
    if counts.len() > 0 {
        let rest = counts.drop_last();
        assert forall|i: int| 0 <= i < rest.len() implies (#[trigger] rest[i]).lt(threshold) by {
            assert(rest[i] == counts[i]);
        }
        cool_frames_have_none(rest, threshold, width);
        assert(counts.last() == counts[counts.len() - 1]);
    }
}

/// The reported pixels are exactly those of the frame whose smoothed count is
/// not below the threshold: each one stands in the frame at its own column and
/// row, none is left out, and none is reported twice.
pub proof fn hot_pixels_stand_where_the_counts_are(
    counts: Seq<Real32>,
    threshold: Real32,
    width: u16,
    height: u16,
)
    requires
        width > 0,
        counts.len() == width * height,
    ensures
        ({
            let hot = hot_pixels(counts, threshold, width);
            &&& forall|k: int|
                0 <= k < hot.len() ==> (#[trigger] hot[k]).x < width && hot[k].y < height && !counts[
                hot[k].y * width + hot[k].x].lt(threshold)
            &&& forall|i: int|
                0 <= i < counts.len() && !(#[trigger] counts[i]).lt(threshold) ==> exists|k: int|
                    0 <= k < hot.len() && (#[trigger] hot[k]).y * width + hot[k].x == i
            &&& forall|j: int, k: int|
                0 <= j < k < hot.len() ==> (#[trigger] hot[j]).y * width + hot[j].x < (
                #[trigger] hot[k]).y * width + hot[k].x
        }),
{
    first_hot_pixels(counts, threshold, width, height, counts.len());
    assert(counts.take(counts.len() as int) =~= counts);
}

proof fn first_hot_pixels(
    counts: Seq<Real32>,
    threshold: Real32,
    width: u16,
    height: u16,
    n: nat,
)
    requires
        width > 0,
        n <= counts.len(),
        counts.len() == width * height,
    ensures
        ({
            let hot = hot_pixels(counts.take(n as int), threshold, width);
            &&& forall|k: int|
                0 <= k < hot.len() ==> (#[trigger] hot[k]).x < width && hot[k].y < height && 0
                    <= hot[k].y * width + hot[k].x < n && !counts[hot[k].y * width + hot[k].x].lt(
                    threshold,
                )
            &&& forall|i: int|
                0 <= i < n && !(#[trigger] counts[i]).lt(threshold) ==> exists|k: int|
                    0 <= k < hot.len() && (#[trigger] hot[k]).y * width + hot[k].x == i
            &&& forall|j: int, k: int|
                0 <= j < k < hot.len() ==> (#[trigger] hot[j]).y * width + hot[j].x < (
                #[trigger] hot[k]).y * width + hot[k].x
        }),
    decreases n,
{
    if n > 0 {
        let m = (n - 1) as nat;
        let i = m as int;
        first_hot_pixels(counts, threshold, width, height, m);
        let part = counts.take(n as int);
        assert(part.drop_last() =~= counts.take(m as int));
        let before = hot_pixels(counts.take(m as int), threshold, width);
        let hot = hot_pixels(part, threshold, width);
        if !counts[i].lt(threshold) {
            let w = width as int;
            let pixel = pixel_at(i, width);
            assert(0 <= i % w < w && 0 <= i / w < height && (i / w) * w + i % w == i)
                by (nonlinear_arith)
                requires
                    0 <= i < w * height,
                    w > 0,
            ;
            assert(pixel.x < width && pixel.y < height && pixel.y * width + pixel.x == i);
            assert(hot == before.push(pixel));
            assert(hot[before.len() as int] == pixel);
        } else {
            assert(hot == before);
        }
        assert forall|p: int| 0 <= p < n && !(#[trigger] counts[p]).lt(
            threshold,
        ) implies exists|k: int|
            0 <= k < hot.len() && (#[trigger] hot[k]).y * width + hot[k].x == p by {
            if p < m {
                let k = choose|k: int|
                    0 <= k < before.len() && (#[trigger] before[k]).y * width + before[k].x == p;
                assert(hot[k] == before[k]);
            } else {
                assert(hot[before.len() as int].y * width + hot[before.len() as int].x == p);
            }
        }
        assert(forall|k: int| 0 <= k < before.len() ==> hot[k] == #[trigger] before[k]);
    }
}

/// The sum of the counts of a frame.
pub open spec fn events_in(pixels: Seq<u16>) -> nat
    decreases pixels.len(),
{
    if pixels.len() == 0 {
        0
    } else {
        events_in(pixels.drop_last()) + pixels.last() as nat
    }
}

/// Without a history only the newest frame counts: the counts are its own.
pub proof fn newest_frames_count_alone(counts: Seq<Real32>, pixels: Seq<u16>, i: int)
    requires
        counts.len() == pixels.len(),
        0 <= i < pixels.len(),
        counts[i].magnitude() < INFINITY_BITS_32,
    ensures
        smoothed(counts, pixels, 1)[i] == whole_32(pixels[i] as nat),
        smoothed(counts, pixels, 0)[i] == whole_32(pixels[i] as nat),
{
    let p = pixels[i] as nat;
    let one = Real32 { bits: ONE_BITS_32 };
    whole_numbers_keep_order_32(1, 1);
    assert(whole_32(1) == one);
    whole_numbers_are_calculated_exactly(1, 1);
    whole_numbers_are_calculated_exactly(1, p);
    assert(frame_weight(1) == one && frame_weight(0) == one);
    assert(past_weight(1) == whole_32(0) && past_weight(0) == whole_32(0));
    assert(times_of(one, whole_32(p)) == whole_32(p));
    let nothing = times_of(whole_32(0), counts[i]);
    assert(nothing.magnitude() == 0);
    whole_numbers_keep_order_32(0, p);
    whole_numbers_keep_order_32(p, p);
    assert(plus_of(whole_32(p), nothing) == whole_32(p));
}

proof fn whole_counts_add_up(counts: Seq<Real32>, pixels: Seq<u16>)
    requires
        counts.len() == pixels.len(),
        forall|i: int| 0 <= i < pixels.len() ==> #[trigger] counts[i] == whole_32(pixels[i] as nat),
        events_in(pixels) < 0x100_0000,
    ensures
        total_of(counts) == whole_32(events_in(pixels)),
    decreases pixels.len(),
{
    if pixels.len() > 0 {
        let rest = pixels.drop_last();
        let less = counts.drop_last();
        assert forall|i: int| 0 <= i < rest.len() implies #[trigger] less[i] == whole_32(
            rest[i] as nat,
        ) by {
            assert(less[i] == counts[i]);
        }
        whole_counts_add_up(less, rest);
        assert(counts.last() == counts[counts.len() - 1]);
        whole_numbers_are_calculated_exactly(events_in(rest), pixels.last() as nat);
    }
}

/// A pixel of the newest frame stands out where it counted no fewer events than
/// the mean of the frame times the factor, and no fewer than the smallest count
/// that can be hot.
pub proof fn pixels_stand_out_of_the_mean(
    counts: Seq<Real32>,
    pixels: Seq<u16>,
    mean: nat,
    factor: nat,
    least: u16,
    i: int,
)
    requires
        counts.len() == pixels.len(),
        0 <= i < pixels.len() < 0x100_0000,
        forall|k: int| 0 <= k < counts.len() ==> (#[trigger] counts[k]).magnitude() < INFINITY_BITS_32,
        events_in(pixels) == mean * pixels.len(),
        events_in(pixels) < 0x100_0000,
        mean * factor < 0x100_0000,
        mean < 0x100_0000,
        factor < 0x100_0000,
    ensures
        ({
            let now = smoothed(counts, pixels, 1);
            let threshold = threshold_of(now, whole_32(factor), least);
            !now[i].lt(threshold) <==> pixels[i] >= mean * factor && pixels[i] >= least
        }),
{
    let now = smoothed(counts, pixels, 1);
    assert forall|k: int| 0 <= k < pixels.len() implies #[trigger] now[k] == whole_32(
        pixels[k] as nat,
    ) by {
        newest_frames_count_alone(counts, pixels, k);
    }
    whole_counts_add_up(now, pixels);
    whole_numbers_are_calculated_exactly(mean, pixels.len());
    whole_numbers_are_calculated_exactly(mean, factor);
    whole_numbers_keep_order_32(mean * factor, least as nat);
    whole_numbers_keep_order_32(pixels[i] as nat, mean * factor);
    whole_numbers_keep_order_32(pixels[i] as nat, least as nat);
}

/// Few hot pixels are told, more than five are a warning, and more than twenty
/// an error.
pub proof fn many_hot_pixels_are_serious(count: nat)
    ensures
        count <= 5 ==> severity_of(count) is Info,
        5 < count <= 20 ==> severity_of(count) is Warning,
        count > 20 ==> severity_of(count) is Error,
{
}

// ---------------------------------------------------------------------------
// The pixel mask
// ---------------------------------------------------------------------------
/// The mask after pixels were copied into it, and how many of them were added,
/// were there already, or found no free slot.
pub struct MaskCopyModel {
    pub mask: Seq<SensorPixel>,
    pub added: nat,
    pub duplicates: nat,
    pub skipped: nat,
}

pub open spec fn copied_mask(mask: Seq<SensorPixel>, pixels: Seq<SensorPixel>) -> MaskCopyModel
    decreases pixels.len(),
{
    if pixels.len() == 0 {
        MaskCopyModel { mask, added: 0, duplicates: 0, skipped: 0 }
    } else {
        let before = copied_mask(mask, pixels.drop_last());
        if before.mask.contains(pixels.last()) {
            MaskCopyModel { duplicates: before.duplicates + 1, ..before }
        } else if before.mask.len() >= IMX636_DEM_SLOTS {
            MaskCopyModel { skipped: before.skipped + 1, ..before }
        } else {
            MaskCopyModel {
                mask: before.mask.push(pixels.last()),
                added: before.added + 1,
                ..before
            }
        }
    }
}

/// What copying pixels into the mask came to.
#[derive(Debug, Clone, Copy, PartialEq, Eq, Structural)]
pub struct MaskCopy {
    pub added: usize,
    pub duplicates: usize,
    pub skipped: usize,
}

fn mask_holds(mask: &Vec<SensorPixel>, pixel: SensorPixel) -> (out: bool)
    ensures
        out == mask@.contains(pixel),
{
    let mut i: usize = 0;
    while i < mask.len()
        invariant
            i <= mask@.len(),
            forall|k: int| 0 <= k < i ==> mask@[k] != pixel,
        decreases mask@.len() - i,
    {
        if mask[i] == pixel {
            return true;
        }
        i = i + 1;
    }
    false
}

/// Copies pixels into the mask, as long as it has free slots.
pub fn copy_into_mask(mask: &mut Vec<SensorPixel>, pixels: &Vec<SensorPixel>) -> (out: MaskCopy)
    ensures
        final(mask)@ == copied_mask(old(mask)@, pixels@).mask,
        out.added == copied_mask(old(mask)@, pixels@).added,
        out.duplicates == copied_mask(old(mask)@, pixels@).duplicates,
        out.skipped == copied_mask(old(mask)@, pixels@).skipped,
{
    let ghost start = mask@;
    let mut added: usize = 0;
    let mut duplicates: usize = 0;
    let mut skipped: usize = 0;
    let mut i: usize = 0;
    assert(pixels@.take(0) =~= Seq::<SensorPixel>::empty());
    while i < pixels.len()
        invariant
            i <= pixels@.len(),
            mask@ == copied_mask(start, pixels@.take(i as int)).mask,
            added == copied_mask(start, pixels@.take(i as int)).added,
            duplicates == copied_mask(start, pixels@.take(i as int)).duplicates,
            skipped == copied_mask(start, pixels@.take(i as int)).skipped,
            added + duplicates + skipped == i,
        decreases pixels@.len() - i,
    {
        assert(pixels@.take(i + 1).drop_last() =~= pixels@.take(i as int));
        if mask_holds(mask, pixels[i]) {
            duplicates = duplicates + 1;
        } else if mask.len() >= IMX636_DEM_SLOTS {
            skipped = skipped + 1;
        } else {
            mask.push(pixels[i]);
            added = added + 1;
        }
        i = i + 1;
    }
    assert(pixels@.take(pixels@.len() as int) =~= pixels@);
    MaskCopy { added, duplicates, skipped }
}

/// Whether no pixel is masked twice.
pub open spec fn masks_once(mask: Seq<SensorPixel>) -> bool {
    forall|i: int, j: int| 0 <= i < j < mask.len() ==> mask[i] != mask[j]
}

/// Copying pixels keeps the mask as it was in front of what is added, masks no
/// pixel twice, never takes more slots than there are, and accounts for each
/// pixel.
pub proof fn mask_copy_keeps_the_mask(mask: Seq<SensorPixel>, pixels: Seq<SensorPixel>)
    requires
        masks_once(mask),
        mask.len() <= IMX636_DEM_SLOTS,
    ensures
        ({
            let after = copied_mask(mask, pixels);
            &&& masks_once(after.mask)
            &&& after.mask.len() <= IMX636_DEM_SLOTS
            &&& after.mask.len() == mask.len() + after.added
            &&& after.mask.take(mask.len() as int) == mask
            &&& after.added + after.duplicates + after.skipped == pixels.len()
            &&& after.skipped > 0 ==> after.mask.len() == IMX636_DEM_SLOTS
        }),
    decreases pixels.len(),
{
    if pixels.len() == 0 {
        assert(mask.take(mask.len() as int) =~= mask);
    } else {
        mask_copy_keeps_the_mask(mask, pixels.drop_last());
        let before = copied_mask(mask, pixels.drop_last());
        let after = copied_mask(mask, pixels);
        let pixel = pixels.last();
        if !before.mask.contains(pixel) && before.mask.len() < IMX636_DEM_SLOTS {
            assert forall|i: int, j: int| 0 <= i < j < after.mask.len() implies after.mask[i]
                != after.mask[j] by {
                if j == before.mask.len() {
                    if after.mask[i] == pixel {
                        assert(before.mask[i] == pixel);
                        assert(before.mask.contains(pixel));
                    }
                }
            }
            assert(after.mask.take(mask.len() as int) =~= before.mask.take(mask.len() as int));
        }
    }
}

/// Copying the same pixels again adds nothing.
pub proof fn second_copy_adds_nothing(mask: Seq<SensorPixel>, pixels: Seq<SensorPixel>)
    requires
        mask.len() <= IMX636_DEM_SLOTS,
        masks_once(mask),
    ensures
        copied_mask(copied_mask(mask, pixels).mask, pixels).mask == copied_mask(mask, pixels).mask,
{
    let full = copied_mask(mask, pixels).mask;
    second_copy_of_prefix(mask, pixels, pixels.len());
    assert(pixels.take(pixels.len() as int) =~= pixels);
}

proof fn second_copy_of_prefix(mask: Seq<SensorPixel>, pixels: Seq<SensorPixel>, n: nat)
    requires
        n <= pixels.len(),
        mask.len() <= IMX636_DEM_SLOTS,
        masks_once(mask),
    ensures
        copied_mask(copied_mask(mask, pixels).mask, pixels.take(n as int)).mask == copied_mask(
            mask,
            pixels,
        ).mask,
    decreases n,
{
    let full = copied_mask(mask, pixels).mask;
    let p = pixels.take(n as int);
    if n > 0 {
        second_copy_of_prefix(mask, pixels, (n - 1) as nat);
        assert(p.drop_last() =~= pixels.take(n - 1));
        assert(p.last() == pixels[n - 1]);
        mask_copy_keeps_the_mask(mask, pixels);
        copied_or_full(mask, pixels, n - 1);
    }
}

/// After copying, each pixel is masked, or the mask is full.
proof fn copied_or_full(mask: Seq<SensorPixel>, pixels: Seq<SensorPixel>, i: int)
    requires
        0 <= i < pixels.len(),
        mask.len() <= IMX636_DEM_SLOTS,
        masks_once(mask),
    ensures
        copied_mask(mask, pixels).mask.contains(pixels[i]) || copied_mask(mask, pixels).mask.len()
            >= IMX636_DEM_SLOTS,
    decreases pixels.len(),
{
    let before = copied_mask(mask, pixels.drop_last()).mask;
    let after = copied_mask(mask, pixels).mask;
    if i < pixels.len() - 1 {
        copied_or_full(mask, pixels.drop_last(), i);
        assert(pixels.drop_last()[i] == pixels[i]);
        if before.contains(pixels[i]) {
            let k = choose|k: int| 0 <= k < before.len() && before[k] == pixels[i];
            assert(after[k] == pixels[i]);
        }
    } else if !before.contains(pixels.last()) && before.len() < IMX636_DEM_SLOTS {
        assert(after[after.len() - 1] == pixels[i]);
    }
}

/// What the copy is reported as.
pub open spec fn mask_notice(detected: nat, copy: MaskCopyModel) -> Seq<char> {
    if detected == 0 {
        "No detected hotpixels are available to copy."@
    } else {
        "Mask copy: added "@ + decimal(copy.added) + ", duplicates "@ + decimal(copy.duplicates)
            + ", skipped by DEM limit "@ + decimal(copy.skipped) + "."@
    }
}

/// Copies the detected pixels into the mask. Gives the notice to show, and
/// whether the mask was changed.
pub fn copy_detected_hotpixels_to_mask(
    mask: &mut Vec<SensorPixel>,
    detected: &Vec<SensorPixel>,
) -> (out: (String, bool))
    ensures
        final(mask)@ == copied_mask(old(mask)@, detected@).mask,
        out.0@ == mask_notice(detected@.len(), copied_mask(old(mask)@, detected@)),
        out.1 == (copied_mask(old(mask)@, detected@).added > 0),
{
    if detected.len() == 0 {
        return ("No detected hotpixels are available to copy.".to_owned(), false);
    }
    let copy = copy_into_mask(mask, detected);
    let mut text = "Mask copy: added ".to_owned();
    push_decimal(&mut text, copy.added as u64);
    text.append(", duplicates ");
    push_decimal(&mut text, copy.duplicates as u64);
    text.append(", skipped by DEM limit ");
    push_decimal(&mut text, copy.skipped as u64);
    text.append(".");
    (text, copy.added > 0)
}

/// Pixels that are not masked yet are added one after the other while there are
/// free slots; one that is masked already is a duplicate.
pub proof fn new_pixels_take_free_slots(
    mask: Seq<SensorPixel>,
    pixels: Seq<SensorPixel>,
    pixel: SensorPixel,
)
    ensures
        ({
            let before = copied_mask(mask, pixels);
            let after = copied_mask(mask, pixels.push(pixel));
            &&& before.mask.contains(pixel) ==> after.mask == before.mask && after.duplicates
                == before.duplicates + 1 && after.added == before.added && after.skipped
                == before.skipped
            &&& !before.mask.contains(pixel) && before.mask.len() < 64 ==> after.mask
                == before.mask.push(pixel) && after.added == before.added + 1 && after.duplicates
                == before.duplicates && after.skipped == before.skipped
            &&& !before.mask.contains(pixel) && before.mask.len() >= 64 ==> after.mask
                == before.mask && after.skipped == before.skipped + 1 && after.added
                == before.added && after.duplicates == before.duplicates
        }),
        copied_mask(mask, seq![]).mask == mask,
{
    assert(pixels.push(pixel).drop_last() =~= pixels);
}

/// The notice tells that there is nothing to copy where nothing was detected,
/// and the numbers of the copy where something was.
pub proof fn notices_tell_what_was_copied(detected: nat, copy: MaskCopyModel)
    ensures
        mask_notice(0, copy) == "No detected hotpixels are available to copy."@,
        detected > 0 ==> mask_notice(detected, copy) == "Mask copy: added "@ + decimal(copy.added)
            + ", duplicates "@ + decimal(copy.duplicates) + ", skipped by DEM limit "@ + decimal(
            copy.skipped,
        ) + "."@,
{
}

/// Counting begins with zero in every pixel.
pub proof fn counts_begin_with_zero(n: nat, i: int)
    requires
        0 <= i < n,
    ensures
        zeros(n).len() == n,
        zeros(n)[i] == (Real32 { bits: 0 }),
{
}

} // verus!
