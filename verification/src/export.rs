//! Export of a recording as a stack of count images, one for each
//! accumulation window.
use crate::rows::RoiConfig;
use crate::scene::CdEvent;
use vstd::prelude::*;

verus! {

#[derive(Debug, Clone)]
pub struct TiffStackExportParams {
    pub acq_time_us: u64,
    pub start_us: u64,
    pub end_us: u64,
    pub roi: Option<RoiConfig>,
    pub output_path: String,
    pub width: u16,
    pub height: u16,
}

/// How many windows of `acq` it takes to cover `start..end`.
pub open spec fn windows(start: int, end: int, acq: int) -> int {
    if end <= start || acq <= 0 {
        0
    } else {
        (end - start + acq - 1) / acq
    }
}

/// The number of pages that an export is said to have beforehand: the time is
/// rounded up to whole windows as far as 64 bits count.
pub open spec fn estimated(start: u64, end: u64, acq: u64) -> int {
    if end <= start || acq == 0 {
        0
    } else {
        let padded = end - start + acq - 1;
        let frames = (if padded > u64::MAX {
            u64::MAX as int
        } else {
            padded
        }) / (acq as int);
        if frames > usize::MAX {
            usize::MAX as int
        } else {
            frames
        }
    }
}

pub fn estimate_tiff_stack_frames(start_us: u64, end_us: u64, acq_time_us: u64) -> (out: usize)
    ensures
        out == estimated(start_us, end_us, acq_time_us),
{
    if end_us <= start_us || acq_time_us == 0 {
        return 0;
    }
    let duration_us: u64 = end_us - start_us;
    let frames: u64 = duration_us.saturating_add(acq_time_us - 1) / acq_time_us;
    if frames > usize::MAX as u64 {
        usize::MAX
    } else {
        frames as usize
    }
}

/// Whether a region lies on a sensor and is not empty.
pub open spec fn roi_fits(roi: RoiConfig, width: u16, height: u16) -> bool {
    &&& roi.width > 0
    &&& roi.height > 0
    &&& roi.x + roi.width <= width
    &&& roi.y + roi.height <= height
}

pub fn roi_is_inside(roi: RoiConfig, width: u16, height: u16) -> (out: bool)
    ensures
        out == roi_fits(roi, width, height),
{
    roi.width > 0 && roi.height > 0 && roi.x as u32 + roi.width as u32 <= width as u32
        && roi.y as u32 + roi.height as u32 <= height as u32
}

/// Parameters of an export that make sense.
#[derive(Debug, Clone, Copy, PartialEq, Eq)]
pub struct ValidatedExportParams {
    pub acq_time_us: u64,
    pub start_us: u64,
    pub end_us: u64,
    pub roi: Option<RoiConfig>,
    pub width: u16,
    pub height: u16,
    pub output_width: u32,
    pub output_height: u32,
}

impl ValidatedExportParams {
    pub open spec fn wf(self) -> bool {
        &&& self.acq_time_us > 0
        &&& self.width > 0
        &&& self.height > 0
        &&& self.start_us < self.end_us
        &&& match self.roi {
            Some(roi) => roi_fits(roi, self.width, self.height) && self.output_width == roi.width
                && self.output_height == roi.height,
            None => self.output_width == self.width && self.output_height == self.height,
        }
    }

    /// Checks the parameters of an export. `roi_problem` says what is wrong
    /// with the region, if anything is.
    pub fn new(params: &TiffStackExportParams, roi_problem: Option<&str>) -> (out: Result<
        Self,
        String,
    >)
        requires
            params.roi matches Some(roi) ==> roi_problem is None ==> roi_fits(
                roi,
                params.width,
                params.height,
            ),
        ensures
            if params.acq_time_us == 0 {
                out matches Err(message) && message@ == "acquisition time must be > 0"@
            } else if params.width == 0 || params.height == 0 {
                out matches Err(message) && message@ == "export dimensions must be > 0"@
            } else if params.end_us <= params.start_us {
                out matches Err(message) && message@
                    == "export end time must be greater than start time"@
            } else if params.roi is Some && roi_problem is Some {
                out matches Err(message) && message@ == "invalid export ROI: "@ + roi_problem->0@
            } else {
                out matches Ok(valid) && valid.wf() && valid.acq_time_us == params.acq_time_us
                    && valid.start_us == params.start_us && valid.end_us == params.end_us
                    && valid.roi == params.roi && valid.width == params.width && valid.height
                    == params.height
            },
    {
        if params.acq_time_us == 0 {
            return Err("acquisition time must be > 0".to_owned());
        }
        if params.width == 0 || params.height == 0 {
            return Err("export dimensions must be > 0".to_owned());
        }
        if params.end_us <= params.start_us {
            return Err("export end time must be greater than start time".to_owned());
        }
        let (output_width, output_height) = match params.roi {
            Some(roi) => {
                if let Some(problem) = roi_problem {
                    let mut message = "invalid export ROI: ".to_owned();
                    message.append(problem);
                    return Err(message);
                }
                (roi.width as u32, roi.height as u32)
            },
            None => (params.width as u32, params.height as u32),
        };
        Ok(
            ValidatedExportParams {
                acq_time_us: params.acq_time_us,
                start_us: params.start_us,
                end_us: params.end_us,
                roi: params.roi,
                width: params.width,
                height: params.height,
                output_width,
                output_height,
            },
        )
    }
}

// ---------------------------------------------------------------------------
// What an export holds
// ---------------------------------------------------------------------------
/// The events before the first one at or after `end`.
pub open spec fn before_end(events: Seq<CdEvent>, end: u64) -> Seq<CdEvent>
    decreases events.len(),
{
    if events.len() == 0 || events[0].timestamp >= end {
        Seq::empty()
    } else {
        seq![events[0]] + before_end(events.drop_first(), end)
    }
}

/// The window in which the export stands after the first `n` events: that of
/// the latest of them. An event that comes late counts in the window at hand.
pub open spec fn window_after(
    params: ValidatedExportParams,
    events: Seq<CdEvent>,
    n: nat,
) -> int
    decreases n,
{
    if n == 0 {
        0
    } else {
        let before = window_after(params, events, (n - 1) as nat);
        let timestamp = events[n - 1].timestamp;
        if timestamp < params.start_us {
            before
        } else {
            let own = (timestamp - params.start_us) / (params.acq_time_us as int);
            if own > before {
                own
            } else {
                before
            }
        }
    }
}

/// How many of the first `n` events count at a pixel in the window `k`.
pub open spec fn pixel_count(
    params: ValidatedExportParams,
    events: Seq<CdEvent>,
    n: nat,
    k: int,
    x: int,
    y: int,
) -> nat
    decreases n,
{
    if n == 0 {
        0
    } else {
        let event = events[n - 1];
        pixel_count(params, events, (n - 1) as nat, k, x, y) + (if event.timestamp
            >= params.start_us && window_after(params, events, n) == k && event.x == x && event.y
            == y {
            1nat
        } else {
            0
        })
    }
}

/// A count as 16 bits hold it.
pub open spec fn clipped(count: nat) -> u16 {
    if count > u16::MAX {
        u16::MAX
    } else {
        count as u16
    }
}

/// The whole frame of the window `k` after the first `n` events.
pub open spec fn frame_of(
    params: ValidatedExportParams,
    events: Seq<CdEvent>,
    n: nat,
    k: int,
) -> Seq<u16> {
    Seq::new(
        (params.width * params.height) as nat,
        |i: int|
            clipped(
                pixel_count(
                    params,
                    events,
                    n,
                    k,
                    i % (params.width as int),
                    i / (params.width as int),
                ),
            ),
    )
}

/// The part of a frame that is exported.
pub open spec fn cropped(params: ValidatedExportParams, frame: Seq<u16>) -> Seq<u16> {
    match params.roi {
        Some(roi) => Seq::new(
            (roi.width * roi.height) as nat,
            |i: int|
                frame[(roi.y + i / (roi.width as int)) * params.width + roi.x + i % (
                roi.width as int)],
        ),
        None => frame,
    }
}

/// The pages of an export: one for each window, with the number of events at
/// each pixel.
pub open spec fn stack_of(params: ValidatedExportParams, events: Seq<CdEvent>) -> Seq<Seq<u16>> {
    let kept = before_end(events, params.end_us);
    Seq::new(
        windows(
            params.start_us as int,
            params.end_us as int,
            params.acq_time_us as int,
        ) as nat,
        |k: int| cropped(params, frame_of(params, kept, kept.len(), k)),
    )
}

pub open spec fn page_views(pages: Seq<Vec<u16>>) -> Seq<Seq<u16>> {
    pages.map_values(|page: Vec<u16>| page@)
}

/// Whether no event is earlier than one before it.
pub open spec fn in_time_order(events: Seq<CdEvent>) -> bool {
    forall|a: int, b: int|
        0 <= a <= b < events.len() ==> (#[trigger] events[a]).timestamp <= (
        #[trigger] events[b]).timestamp
}

/// How many events there are at a pixel from one time on and before another.
pub open spec fn events_between(
    events: Seq<CdEvent>,
    from: int,
    until: int,
    x: int,
    y: int,
) -> nat
    decreases events.len(),
{
    if events.len() == 0 {
        0
    } else {
        let event = events.last();
        events_between(events.drop_last(), from, until, x, y) + (if from <= event.timestamp
            && event.timestamp < until && event.x == x && event.y == y {
            1nat
        } else {
            0
        })
    }
}

impl ValidatedExportParams {
    /// Whether a pixel of the sensor is exported.
    pub open spec fn exports(self, x: int, y: int) -> bool {
        match self.roi {
            Some(roi) => roi.x <= x < roi.x + roi.width && roi.y <= y < roi.y + roi.height,
            None => 0 <= x < self.width && 0 <= y < self.height,
        }
    }

    /// Where a pixel of the sensor stands on a page.
    pub open spec fn place(self, x: int, y: int) -> int {
        match self.roi {
            Some(roi) => (y - roi.y) * roi.width + (x - roi.x),
            None => y * self.width + x,
        }
    }

    /// The time at which a window ends: that of the export at the latest.
    pub open spec fn window_end(self, k: int) -> int {
        let end = self.start_us + (k + 1) * self.acq_time_us;
        if end < self.end_us {
            end
        } else {
            self.end_us as int
        }
    }
}

/// Whether there is a page for each window, with the number of the events in
/// it at each exported pixel, as far as 16 bits count.
pub open spec fn counts_windows(
    params: ValidatedExportParams,
    events: Seq<CdEvent>,
    pages: Seq<Seq<u16>>,
) -> bool {
    &&& pages.len() == windows(
        params.start_us as int,
        params.end_us as int,
        params.acq_time_us as int,
    )
    &&& forall|k: int, x: int, y: int|
        0 <= k < pages.len() && params.exports(x, y) ==> #[trigger] pages[k][params.place(x, y)]
            == clipped(
            events_between(
                events,
                params.start_us + k * params.acq_time_us,
                params.window_end(k),
                x,
                y,
            ),
        )
}

// ---------------------------------------------------------------------------
// The export step by step
// ---------------------------------------------------------------------------
/// What to do next with an event.
#[derive(Debug, Clone, Copy, PartialEq, Eq, Structural)]
pub enum StackStep {
    /// The page at hand is complete: write it, then offer the event again.
    WriteFrame,
    /// The event has been dealt with.
    NextEvent,
    /// No further event matters.
    Finished,
}

/// The state of an export between two events.
#[derive(Debug)]
pub struct TiffStack {
    params: ValidatedExportParams,
    frame_start_us: u64,
    frame_end_us: u64,
    full_frame: Vec<u16>,
    frame_count: usize,
    finished: bool,
}

impl TiffStack {
    pub closed spec fn params(&self) -> ValidatedExportParams {
        self.params
    }

    pub closed spec fn frame_start(&self) -> u64 {
        self.frame_start_us
    }

    pub closed spec fn frame_end(&self) -> u64 {
        self.frame_end_us
    }

    /// The counts of the page at hand, row by row.
    pub closed spec fn frame(&self) -> Seq<u16> {
        self.full_frame@
    }

    /// How many pages were written.
    pub closed spec fn written(&self) -> int {
        self.frame_count as int
    }

    pub closed spec fn is_finished(&self) -> bool {
        self.finished
    }

    /// The page at hand is the one after the pages that were written.
    pub open spec fn wf(&self) -> bool {
        &&& self.params().wf()
        &&& self.frame().len() == self.params().width * self.params().height
        &&& self.frame_start() == capped(
            self.params().start_us + self.written() * self.params().acq_time_us,
        )
        &&& self.frame_end() == capped(self.frame_start() + self.params().acq_time_us)
        &&& 0 <= self.written() <= windows(
            self.params().start_us as int,
            self.params().end_us as int,
            self.params().acq_time_us as int,
        )
    }

    pub fn new(params: ValidatedExportParams) -> (out: Self)
        requires
            params.wf(),
        ensures
            out.wf(),
            out.params() == params,
            out.written() == 0,
            !out.is_finished(),
            out.frame() == Seq::new((params.width * params.height) as nat, |i: int| 0u16),
    {
        assert(params.width * params.height <= 0xffff * 0xffff) by (nonlinear_arith)
            requires
                0 <= params.width <= 0xffff,
                0 <= params.height <= 0xffff,
        ;
        let pixels: usize = params.width as usize * params.height as usize;
        let full_frame: Vec<u16> = vec![0u16; pixels];
        assert(full_frame@ =~= Seq::new(
            (params.width * params.height) as nat,
            |i: int| 0u16,
        ));
        proof {
            windows_positive(
                params.start_us as int,
                params.end_us as int,
                params.acq_time_us as int,
            );
            assert(0 * params.acq_time_us == 0) by (nonlinear_arith);
        }
        TiffStack {
            params,
            frame_start_us: params.start_us,
            frame_end_us: params.start_us.saturating_add(params.acq_time_us),
            full_frame,
            frame_count: 0,
            finished: false,
        }
    }

    /// Whether a page is still to be written.
    pub fn frame_pending(&self) -> (out: bool)
        requires
            self.wf(),
        ensures
            out == (self.frame_start() < self.params().end_us),
            out <==> self.written() < windows(
                self.params().start_us as int,
                self.params().end_us as int,
                self.params().acq_time_us as int,
            ),
    {
        proof {
            window_starts_before_end(self.params, self.frame_count as int);
        }
        self.frame_start_us < self.params.end_us
    }

    /// How many pages were written.
    pub fn frames_written(&self) -> (out: usize)
        ensures
            out == self.written(),
    {
        self.frame_count
    }

    /// Deals with an event. Where the page at hand has to be written first,
    /// nothing changes.
    pub fn process_event(&mut self, event: CdEvent) -> (out: StackStep)
        requires
            old(self).wf(),
        ensures
            final(self).wf(),
            final(self).params() == old(self).params(),
            final(self).written() == old(self).written(),
            final(self).frame_start() == old(self).frame_start(),
            ({
                let p = old(self).params();
                if old(self).is_finished() {
                    out == StackStep::Finished && *final(self) == *old(self)
                } else if event.timestamp < p.start_us {
                    out == StackStep::NextEvent && *final(self) == *old(self)
                } else if event.timestamp >= old(self).frame_end() && old(self).frame_start()
                    < p.end_us {
                    out == StackStep::WriteFrame && *final(self) == *old(self)
                } else if old(self).frame_start() >= p.end_us || event.timestamp >= p.end_us {
                    out == StackStep::Finished && final(self).is_finished() && final(self).frame()
                        == old(self).frame()
                } else {
                    &&& out == StackStep::NextEvent
                    &&& !final(self).is_finished()
                    &&& final(self).frame() == (if event.x < p.width && event.y < p.height {
                        let i = event.y * p.width + event.x;
                        let count = old(self).frame()[i];
                        old(self).frame().update(
                            i,
                            if count == u16::MAX {
                                count
                            } else {
                                (count + 1) as u16
                            },
                        )
                    } else {
                        old(self).frame()
                    })
                }
            }),
    {
        if self.finished {
            return StackStep::Finished;
        }
        if event.timestamp < self.params.start_us {
            return StackStep::NextEvent;
        }
        if event.timestamp >= self.frame_end_us && self.frame_start_us < self.params.end_us {
            return StackStep::WriteFrame;
        }
        if self.frame_start_us >= self.params.end_us || event.timestamp >= self.params.end_us {
            self.finished = true;
            return StackStep::Finished;
        }
        if event.x < self.params.width && event.y < self.params.height {
            let ghost p = self.params;
            proof {
                pixel_in_frame(p, event.x as int, event.y as int);
            }
            let index: usize = event.y as usize * self.params.width as usize + event.x as usize;
            let count: u16 = self.full_frame[index];
            self.full_frame.set(index, count.saturating_add(1));
        }
        StackStep::NextEvent
    }

    /// The page at hand as it is written.
    pub fn page(&self) -> (out: Vec<u16>)
        requires
            self.wf(),
        ensures
            out@ == cropped(self.params(), self.frame()),
            out@.len() == self.params().output_width * self.params().output_height,
    {
        let mut out: Vec<u16> = Vec::new();
        match self.params.roi {
            None => {
                let mut i: usize = 0;
                while i < self.full_frame.len()
                    invariant
                        i <= self.full_frame@.len(),
                        out@ == self.full_frame@.take(i as int),
                    decreases self.full_frame@.len() - i,
                {
                    out.push(self.full_frame[i]);
                    assert(self.full_frame@.take(i + 1) =~= self.full_frame@.take(i as int).push(
                        self.full_frame@[i as int],
                    ));
                    i = i + 1;
                }
                assert(self.full_frame@.take(self.full_frame@.len() as int) =~= self.full_frame@);
                out
            },
            Some(roi) => {
                let ghost p = self.params;
                let ghost whole = cropped(p, self.full_frame@);
                let mut row: u16 = 0;
                assert(0 * roi.width == 0) by (nonlinear_arith);
                assert(out@ =~= whole.take(0));
                assert(roi.width * roi.height >= 0) by (nonlinear_arith);
                while row < roi.height
                    invariant
                        p == self.params,
                        p.wf(),
                        p.roi == Some(roi),
                        self.full_frame@.len() == p.width * p.height,
                        whole == cropped(p, self.full_frame@),
                        row <= roi.height,
                        out@ == whole.take(row * roi.width),
                        0 <= row * roi.width <= whole.len(),
                        whole.len() == roi.width * roi.height,
                    decreases roi.height - row,
                {
                    let mut column: u16 = 0;
                    proof {
                        assert((row + 1) * roi.width == row * roi.width + roi.width)
                            by (nonlinear_arith);
                        assert((row + 1) * roi.width <= roi.width * roi.height) by (nonlinear_arith)
                            requires
                                row + 1 <= roi.height,
                                roi.width >= 0,
                        ;
                    }
                    while column < roi.width
                        invariant
                            p == self.params,
                            p.wf(),
                            p.roi == Some(roi),
                            self.full_frame@.len() == p.width * p.height,
                            whole == cropped(p, self.full_frame@),
                            row < roi.height,
                            column <= roi.width,
                            out@ == whole.take(row * roi.width + column),
                            0 <= row * roi.width,
                            row * roi.width + roi.width <= whole.len(),
                            whole.len() == roi.width * roi.height,
                        decreases roi.width - column,
                    {
                        let ghost i = row * roi.width + column;
                        proof {
                            pixel_in_frame(p, roi.x + column, roi.y + row);
                            vstd::arithmetic::div_mod::lemma_fundamental_div_mod_converse(
                                i,
                                roi.width as int,
                                row as int,
                                column as int,
                            );
                            assert(roi.width * row == row * roi.width) by (nonlinear_arith);
                        }
                        let index: usize = (roi.y + row) as usize * self.params.width as usize + (
                        roi.x + column) as usize;
                        out.push(self.full_frame[index]);
                        proof {
                            assert(whole[i] == self.full_frame@[index as int]);
                            assert(whole.take(i + 1) =~= whole.take(i).push(whole[i]));
                        }
                        column = column + 1;
                    }
                    row = row + 1;
                }
                proof {
                    assert(roi.height * roi.width == roi.width * roi.height) by (nonlinear_arith);
                    assert(whole.take(whole.len() as int) =~= whole);
                }
                out
            },
        }
    }

    /// Goes on to the next page after the one at hand was written.
    pub fn frame_written(&mut self)
        requires
            old(self).wf(),
            old(self).frame_start() < old(self).params().end_us,
            old(self).written() < usize::MAX,
        ensures
            final(self).wf(),
            final(self).params() == old(self).params(),
            final(self).is_finished() == old(self).is_finished(),
            final(self).written() == old(self).written() + 1,
            final(self).frame_start() == old(self).frame_end(),
            final(self).frame() == Seq::new(old(self).frame().len(), |i: int| 0u16),
    {
        let ghost before = *self;
        proof {
            window_starts_before_end(self.params, self.frame_count as int);
            assert((self.frame_count + 1) * self.params.acq_time_us == self.frame_count
                * self.params.acq_time_us + self.params.acq_time_us) by (nonlinear_arith);
        }
        self.frame_count = self.frame_count + 1;
        let pixels: usize = self.full_frame.len();
        self.full_frame = vec![0u16; pixels];
        assert(self.full_frame@ =~= Seq::new(before.frame().len(), |i: int| 0u16));
        self.frame_start_us = self.frame_end_us;
        self.frame_end_us = self.frame_end_us.saturating_add(self.params.acq_time_us);
    }
}

/// A time as 64 bits hold it.
pub open spec fn capped(time: int) -> int {
    if time > u64::MAX {
        u64::MAX as int
    } else {
        time
    }
}

proof fn pixel_in_frame(params: ValidatedExportParams, x: int, y: int)
    requires
        0 <= x < params.width,
        0 <= y < params.height,
    ensures
        0 <= y * params.width + x < params.width * params.height,
        y * params.width <= 0xffff * 0xffff,
        params.width * params.height <= 0xffff * 0xffff,
        (y * params.width + x) % (params.width as int) == x,
        (y * params.width + x) / (params.width as int) == y,
{
    let w = params.width as int;
    let h = params.height as int;
    assert(y * w + x < w * h) by (nonlinear_arith)
        requires
            0 <= x < w,
            0 <= y < h,
    ;
    assert(y * w >= 0) by (nonlinear_arith)
        requires
            y >= 0,
            w >= 0,
    ;
    assert(y * w <= 0xffff * 0xffff) by (nonlinear_arith)
        requires
            0 <= y <= 0xffff,
            0 <= w <= 0xffff,
    ;
    assert(w * h <= 0xffff * 0xffff) by (nonlinear_arith)
        requires
            0 <= h <= 0xffff,
            0 <= w <= 0xffff,
    ;
    assert(w * y == y * w) by (nonlinear_arith);
    vstd::arithmetic::div_mod::lemma_fundamental_div_mod_converse(y * w + x, w, y, x);
}

proof fn windows_positive(start: int, end: int, acq: int)
    requires
        start < end,
        acq > 0,
    ensures
        windows(start, end, acq) >= 1,
{
    let n = end - start + acq - 1;
    vstd::arithmetic::div_mod::lemma_fundamental_div_mod(n, acq);
    assert(n / acq >= 1) by (nonlinear_arith)
        requires
            n == acq * (n / acq) + n % acq,
            0 <= n % acq < acq,
            n >= acq,
            acq > 0,
    ;
}

/// The window `k` starts before the end exactly where it is one of the
/// windows.
proof fn window_starts_before_end(params: ValidatedExportParams, k: int)
    requires
        params.wf(),
        k >= 0,
    ensures
        capped(params.start_us + k * params.acq_time_us) < params.end_us <==> k < windows(
            params.start_us as int,
            params.end_us as int,
            params.acq_time_us as int,
        ),
{
    let acq = params.acq_time_us as int;
    let d = params.end_us - params.start_us;
    let n = d + acq - 1;
    let q = n / acq;
    let r = n % acq;
    vstd::arithmetic::div_mod::lemma_fundamental_div_mod(n, acq);
    if k < q {
        assert(k * acq < d) by (nonlinear_arith)
            requires
                d + acq - 1 == acq * q + r,
                0 <= r < acq,
                k <= q - 1,
                acq > 0,
        ;
    } else {
        assert(k * acq >= d) by (nonlinear_arith)
            requires
                d + acq - 1 == acq * q + r,
                0 <= r < acq,
                k >= q,
                acq > 0,
        ;
    }
}

// ---------------------------------------------------------------------------
// The whole export
// ---------------------------------------------------------------------------
/// The pages that were written so far and the page at hand, after the first
/// `n` events.
spec fn in_progress(
    params: ValidatedExportParams,
    kept: Seq<CdEvent>,
    n: nat,
    stack: TiffStack,
    pages: Seq<Vec<u16>>,
) -> bool {
    &&& stack.wf()
    &&& stack.params() == params
    &&& pages.len() == stack.written()
    &&& n <= kept.len()
    &&& window_after(params, kept, n) <= stack.written()
    &&& stack.frame() == frame_of(params, kept, n, stack.written())
    &&& forall|j: int|
        0 <= j < pages.len() ==> (#[trigger] pages[j])@ == cropped(
            params,
            frame_of(params, kept, kept.len(), j),
        )
}

proof fn before_end_of_prefix(events: Seq<CdEvent>, end: u64, n: int)
    requires
        0 <= n <= events.len(),
        forall|j: int| 0 <= j < n ==> (#[trigger] events[j]).timestamp < end,
    ensures
        n <= before_end(events, end).len() <= events.len(),
        before_end(events, end).take(n) == events.take(n),
        n == events.len() || events[n].timestamp >= end ==> before_end(events, end) == events.take(
            n,
        ),
        n < events.len() && events[n].timestamp < end ==> n < before_end(events, end).len()
            && before_end(events, end)[n] == events[n],
    decreases events.len(),
{
    let kept = before_end(events, end);
    if events.len() == 0 {
        assert(kept =~= events.take(0));
        assert(kept.take(0) =~= events.take(0));
    } else if n == 0 {
        assert(kept.take(0) =~= events.take(0));
        if events[0].timestamp < end {
            before_end_of_prefix(events.drop_first(), end, 0);
        }
        if events[0].timestamp >= end {
            assert(kept =~= events.take(0));
        }
    } else {
        let rest = events.drop_first();
        assert(events[0].timestamp < end);
        assert forall|j: int| 0 <= j < n - 1 implies (#[trigger] rest[j]).timestamp < end by {
            assert(events[j + 1].timestamp < end);
        }
        before_end_of_prefix(rest, end, n - 1);
        let kept_rest = before_end(rest, end);
        assert(kept =~= seq![events[0]] + kept_rest);
        assert(kept.take(n) =~= seq![events[0]] + kept_rest.take(n - 1));
        assert(events.take(n) =~= seq![events[0]] + rest.take(n - 1));
        if n == events.len() || events[n].timestamp >= end {
            if n < events.len() {
                assert(rest[n - 1] == events[n]);
            }
            assert(kept =~= events.take(n));
        }
        if n < events.len() && events[n].timestamp < end {
            assert(rest[n - 1] == events[n]);
            assert(kept[n] == kept_rest[n - 1]);
        }
    }
}

/// Windows never go back.
proof fn windows_advance(params: ValidatedExportParams, events: Seq<CdEvent>, n: nat, m: nat)
    requires
        n <= m,
    ensures
        window_after(params, events, n) <= window_after(params, events, m),
        window_after(params, events, n) >= 0,
    decreases m,
{
    if n < m {
        windows_advance(params, events, n, (m - 1) as nat);
    } else if n > 0 {
        windows_advance(params, events, (n - 1) as nat, (n - 1) as nat);
    }
}

/// A window that is over counts no further event.
proof fn count_is_final(
    params: ValidatedExportParams,
    events: Seq<CdEvent>,
    n: nat,
    m: nat,
    k: int,
    x: int,
    y: int,
)
    requires
        n <= m,
        n < m ==> window_after(params, events, n + 1) > k,
    ensures
        pixel_count(params, events, m, k, x, y) == pixel_count(params, events, n, k, x, y),
    decreases m,
{
    if n < m {
        windows_advance(params, events, n + 1, m);
        count_is_final(params, events, n, (m - 1) as nat, k, x, y);
    }
}

/// A window that has not begun counts no event.
proof fn count_is_zero(
    params: ValidatedExportParams,
    events: Seq<CdEvent>,
    n: nat,
    k: int,
    x: int,
    y: int,
)
    requires
        window_after(params, events, n) < k,
    ensures
        pixel_count(params, events, n, k, x, y) == 0,
    decreases n,
{
    if n > 0 {
        windows_advance(params, events, (n - 1) as nat, n);
        count_is_zero(params, events, (n - 1) as nat, k, x, y);
    }
}

proof fn page_is_final(
    params: ValidatedExportParams,
    kept: Seq<CdEvent>,
    n: nat,
    k: int,
)
    requires
        n <= kept.len(),
        n < kept.len() ==> window_after(params, kept, n + 1) > k,
    ensures
        frame_of(params, kept, kept.len(), k) == frame_of(params, kept, n, k),
{
    let a = frame_of(params, kept, kept.len(), k);
    let b = frame_of(params, kept, n, k);
    assert forall|i: int| 0 <= i < a.len() implies a[i] == b[i] by {
        count_is_final(
            params,
            kept,
            n,
            kept.len(),
            k,
            i % (params.width as int),
            i / (params.width as int),
        );
    }
    assert(a =~= b);
}

proof fn fresh_page_is_empty(params: ValidatedExportParams, kept: Seq<CdEvent>, n: nat, k: int)
    requires
        window_after(params, kept, n) < k,
    ensures
        frame_of(params, kept, n, k) == Seq::new(
            (params.width * params.height) as nat,
            |i: int| 0u16,
        ),
{
    let a = frame_of(params, kept, n, k);
    assert forall|i: int| 0 <= i < a.len() implies a[i] == 0u16 by {
        count_is_zero(
            params,
            kept,
            n,
            k,
            i % (params.width as int),
            i / (params.width as int),
        );
    }
    assert(a =~= Seq::new((params.width * params.height) as nat, |i: int| 0u16));
}

/// An event at or after the end of the window at hand belongs to a later
/// window.
proof fn late_event_is_later(params: ValidatedExportParams, k: int, timestamp: u64)
    requires
        params.wf(),
        k >= 0,
        params.start_us <= timestamp < params.end_us,
    ensures
        timestamp >= capped(capped(params.start_us + k * params.acq_time_us) + params.acq_time_us)
            <==> (timestamp - params.start_us) / (params.acq_time_us as int) > k,
{
    let acq = params.acq_time_us as int;
    let d = timestamp - params.start_us;
    let q = d / acq;
    let r = d % acq;
    vstd::arithmetic::div_mod::lemma_fundamental_div_mod(d, acq);
    assert((k + 1) * acq == k * acq + acq) by (nonlinear_arith);
    if q > k {
        assert(d >= k * acq + acq) by (nonlinear_arith)
            requires
                d == acq * q + r,
                r >= 0,
                q >= k + 1,
                acq > 0,
        ;
    } else {
        assert(d < k * acq + acq) by (nonlinear_arith)
            requires
                d == acq * q + r,
                r < acq,
                q <= k,
                acq > 0,
        ;
    }
}

/// Events before the end stay within the windows.
proof fn windows_in_range(params: ValidatedExportParams, events: Seq<CdEvent>, n: nat)
    requires
        params.wf(),
        n <= events.len(),
        forall|j: int| 0 <= j < n ==> (#[trigger] events[j]).timestamp < params.end_us,
    ensures
        window_after(params, events, n) < windows(
            params.start_us as int,
            params.end_us as int,
            params.acq_time_us as int,
        ),
    decreases n,
{
    if n == 0 {
        windows_positive(
            params.start_us as int,
            params.end_us as int,
            params.acq_time_us as int,
        );
    } else {
        windows_in_range(params, events, (n - 1) as nat);
        let timestamp = events[n - 1].timestamp;
        if timestamp >= params.start_us {
            let acq = params.acq_time_us as int;
            let d = timestamp - params.start_us;
            let own = d / acq;
            vstd::arithmetic::div_mod::lemma_fundamental_div_mod(d, acq);
            assert(own >= 0 && own * acq <= d) by (nonlinear_arith)
                requires
                    d == acq * own + d % acq,
                    0 <= d % acq < acq,
                    d >= 0,
                    acq > 0,
            ;
            window_starts_before_end(params, own);
        }
    }
}

/// An event before the start counts nowhere.
proof fn early_event(params: ValidatedExportParams, kept: Seq<CdEvent>, n: nat, k: int)
    requires
        n < kept.len(),
        kept[n as int].timestamp < params.start_us,
    ensures
        frame_of(params, kept, n + 1, k) == frame_of(params, kept, n, k),
        window_after(params, kept, n + 1) == window_after(params, kept, n),
{
    assert(frame_of(params, kept, n + 1, k) =~= frame_of(params, kept, n, k));
}

/// Counting an event in the window at hand.
proof fn counted_event(
    params: ValidatedExportParams,
    kept: Seq<CdEvent>,
    n: nat,
    k: int,
    after: Seq<u16>,
)
    requires
        params.wf(),
        n < kept.len(),
        kept[n as int].timestamp >= params.start_us,
        window_after(params, kept, n + 1) == k,
        ({
            let before = frame_of(params, kept, n, k);
            let event = kept[n as int];
            after == (if event.x < params.width && event.y < params.height {
                let i = event.y * params.width + event.x;
                before.update(
                    i,
                    if before[i] == u16::MAX {
                        before[i]
                    } else {
                        (before[i] + 1) as u16
                    },
                )
            } else {
                before
            })
        }),
    ensures
        after == frame_of(params, kept, n + 1, k),
{
    let before = frame_of(params, kept, n, k);
    let target = frame_of(params, kept, n + 1, k);
    let event = kept[n as int];
    let w = params.width as int;
    if event.x < params.width && event.y < params.height {
        pixel_in_frame(params, event.x as int, event.y as int);
    }
    assert forall|i: int| 0 <= i < target.len() implies after[i] == target[i] by {
        let x = i % w;
        let y = i / w;
        vstd::arithmetic::div_mod::lemma_fundamental_div_mod(i, w);
        assert(w * y == y * w) by (nonlinear_arith);
        if event.x == x && event.y == y {
            assert(y < params.height) by (nonlinear_arith)
                requires
                    i == w * y + x,
                    0 <= x,
                    i < w * params.height,
                    w > 0,
            ;
            assert(i == event.y * params.width + event.x);
        }
    }
    assert(after =~= target);
}

/// Exports a list of events as pages, one for each accumulation window.
pub fn export_stack(events: &Vec<CdEvent>, params: ValidatedExportParams) -> (out: Vec<Vec<u16>>)
    requires
        params.wf(),
        windows(params.start_us as int, params.end_us as int, params.acq_time_us as int)
            <= usize::MAX,
    ensures
        page_views(out@) == stack_of(params, events@),
        in_time_order(events@) ==> counts_windows(params, events@, page_views(out@)),
        out@.len() == windows(
            params.start_us as int,
            params.end_us as int,
            params.acq_time_us as int,
        ),
        params.end_us - params.start_us + params.acq_time_us - 1 <= u64::MAX ==> out@.len()
            == estimated(params.start_us, params.end_us, params.acq_time_us),
{
    let ghost kept = before_end(events@, params.end_us);
    let ghost total = windows(
        params.start_us as int,
        params.end_us as int,
        params.acq_time_us as int,
    );
    let mut stack = TiffStack::new(params);
    let mut pages: Vec<Vec<u16>> = Vec::new();
    let mut i: usize = 0;
    let mut done = false;
    proof {
        let a = frame_of(params, kept, 0, 0);
        assert(a =~= stack.frame());
        before_end_of_prefix(events@, params.end_us, 0);
    }
    while i < events.len() && !done
        invariant
            params.wf(),
            kept == before_end(events@, params.end_us),
            total == windows(
                params.start_us as int,
                params.end_us as int,
                params.acq_time_us as int,
            ),
            total <= usize::MAX,
            i <= events@.len(),
            forall|j: int| 0 <= j < i ==> (#[trigger] events@[j]).timestamp < params.end_us,
            done ==> i < events@.len() && events@[i as int].timestamp >= params.end_us,
            in_progress(params, kept, i as nat, stack, pages@),
            !done ==> !stack.is_finished() && window_after(params, kept, i as nat)
                == stack.written(),
        decreases events@.len() - i, (if done {
                0int
            } else {
                1
            }),
    {
        let event = events[i];
        proof {
            before_end_of_prefix(events@, params.end_us, i as int);
        }
        let mut step = stack.process_event(event);
        proof {
            assert forall|j: int| 0 <= j < i implies (#[trigger] kept[j]).timestamp
                < params.end_us by {
                assert(kept.take(i as int)[j] == events@.take(i as int)[j]);
                assert(events@[j].timestamp < params.end_us);
            }
            windows_in_range(params, kept, i as nat);
            window_starts_before_end(params, stack.written());
            if i < kept.len() {
                if event.timestamp < params.start_us {
                    early_event(params, kept, i as nat, stack.written());
                } else {
                    late_event_is_later(params, stack.written(), event.timestamp);
                    if step == StackStep::NextEvent {
                        counted_event(params, kept, i as nat, stack.written(), stack.frame());
                    }
                }
            }
        }
        while step == StackStep::WriteFrame
            invariant
                params.wf(),
                total == windows(
                    params.start_us as int,
                    params.end_us as int,
                    params.acq_time_us as int,
                ),
                total <= usize::MAX,
                i <= kept.len(),
                i < kept.len() ==> kept[i as int] == event && event.timestamp < params.end_us,
                i == kept.len() ==> event.timestamp >= params.end_us,
                step == StackStep::WriteFrame ==> in_progress(
                    params,
                    kept,
                    i as nat,
                    stack,
                    pages@,
                ) && !stack.is_finished() && stack.frame_start() < params.end_us && event.timestamp
                    >= stack.frame_end() && event.timestamp >= params.start_us,
                i < kept.len() && event.timestamp >= params.start_us ==> stack.written()
                    <= window_after(params, kept, (i + 1) as nat),
                step != StackStep::WriteFrame ==> ({
                    if step == StackStep::Finished {
                        event.timestamp >= params.end_us && in_progress(
                            params,
                            kept,
                            i as nat,
                            stack,
                            pages@,
                        )
                    } else {
                        event.timestamp < params.end_us && !stack.is_finished() && in_progress(
                            params,
                            kept,
                            (i + 1) as nat,
                            stack,
                            pages@,
                        ) && window_after(params, kept, (i + 1) as nat) == stack.written()
                    }
                }),
            decreases total - stack.written(),
        {
            let ghost k = stack.written();
            proof {
                window_starts_before_end(params, k);
                if i < kept.len() {
                    late_event_is_later(params, k, event.timestamp);
                }
                page_is_final(params, kept, i as nat, k);
            }
            let ghost before = pages@;
            let page = stack.page();
            pages.push(page);
            stack.frame_written();
            proof {
                fresh_page_is_empty(params, kept, i as nat, k + 1);
                assert forall|j: int| 0 <= j < pages@.len() implies (#[trigger] pages@[j])@
                    == cropped(params, frame_of(params, kept, kept.len(), j)) by {
                    if j < before.len() {
                        assert(pages@[j] == before[j]);
                    }
                }
                assert(in_progress(params, kept, i as nat, stack, pages@));
                if i < kept.len() {
                    late_event_is_later(params, k + 1, event.timestamp);
                }
                window_starts_before_end(params, k + 1);
            }
            step = stack.process_event(event);
            proof {
                if step == StackStep::NextEvent {
                    counted_event(params, kept, i as nat, stack.written(), stack.frame());
                }
            }
        }
        if step == StackStep::Finished {
            done = true;
        } else {
            i = i + 1;
        }
    }
    proof {
        before_end_of_prefix(events@, params.end_us, i as int);
    }
    while stack.frame_pending()
        invariant
            params.wf(),
            total == windows(
                params.start_us as int,
                params.end_us as int,
                params.acq_time_us as int,
            ),
            total <= usize::MAX,
            i == kept.len(),
            in_progress(params, kept, i as nat, stack, pages@),
        decreases total - stack.written(),
    {
        let ghost k = stack.written();
        let ghost before = pages@;
        proof {
            page_is_final(params, kept, i as nat, k);
        }
        let page = stack.page();
        pages.push(page);
        stack.frame_written();
        proof {
            fresh_page_is_empty(params, kept, i as nat, k + 1);
            assert forall|j: int| 0 <= j < pages@.len() implies (#[trigger] pages@[j])@ == cropped(
                params,
                frame_of(params, kept, kept.len(), j),
            ) by {
                if j < before.len() {
                    assert(pages@[j] == before[j]);
                }
            }
        }
    }
    assert(page_views(pages@) =~= stack_of(params, events@));
    proof {
        if in_time_order(events@) {
            pages_count_their_windows(params, events@);
        }
    }
    pages
}

// ---------------------------------------------------------------------------
// Laws
// ---------------------------------------------------------------------------
/// Of events in the order of their times, each counts in the window that its
/// own time lies in.
pub proof fn ordered_events_count_in_their_window(
    params: ValidatedExportParams,
    events: Seq<CdEvent>,
    i: int,
)
    requires
        params.wf(),
        0 <= i < events.len(),
        events[i].timestamp >= params.start_us,
        in_time_order(events),
    ensures
        ({
            let k = window_after(params, events, (i + 1) as nat);
            &&& k == (events[i].timestamp - params.start_us) / (params.acq_time_us as int)
            &&& params.start_us + k * params.acq_time_us <= events[i].timestamp
            &&& events[i].timestamp < params.start_us + (k + 1) * params.acq_time_us
        }),
{
    let acq = params.acq_time_us as int;
    let d = events[i].timestamp - params.start_us;
    let own = d / acq;
    earlier_windows(params, events, i as nat, d);
    vstd::arithmetic::div_mod::lemma_fundamental_div_mod(d, acq);
    assert(own * acq <= d && d < (own + 1) * acq) by (nonlinear_arith)
        requires
            d == acq * own + d % acq,
            0 <= d % acq < acq,
    ;
}

proof fn earlier_windows(params: ValidatedExportParams, events: Seq<CdEvent>, n: nat, d: int)
    requires
        params.wf(),
        n <= events.len(),
        d >= 0,
        forall|j: int|
            0 <= j < n ==> (#[trigger] events[j]).timestamp <= params.start_us + d,
    ensures
        window_after(params, events, n) <= d / (params.acq_time_us as int),
    decreases n,
{
    let acq = params.acq_time_us as int;
    if n == 0 {
        vstd::arithmetic::div_mod::lemma_div_pos_is_pos(d, acq);
    } else {
        earlier_windows(params, events, (n - 1) as nat, d);
        let t = events[n - 1].timestamp - params.start_us;
        if t >= 0 {
            vstd::arithmetic::div_mod::lemma_div_is_ordered(t, d, acq);
        }
    }
}

/// The counts of a window are those of the events between its times.
proof fn window_counts(
    params: ValidatedExportParams,
    events: Seq<CdEvent>,
    n: nat,
    k: int,
    x: int,
    y: int,
)
    requires
        params.wf(),
        in_time_order(events),
        n <= events.len(),
        forall|j: int| 0 <= j < events.len() ==> (#[trigger] events[j]).timestamp < params.end_us,
        k >= 0,
    ensures
        pixel_count(params, events, n, k, x, y) == events_between(
            events.take(n as int),
            params.start_us + k * params.acq_time_us,
            params.window_end(k),
            x,
            y,
        ),
    decreases n,
{
    if n > 0 {
        let acq = params.acq_time_us as int;
        let event = events[n - 1];
        window_counts(params, events, (n - 1) as nat, k, x, y);
        assert(events.take(n as int).drop_last() =~= events.take(n - 1));
        assert(k * acq >= 0) by (nonlinear_arith)
            requires
                k >= 0,
                acq >= 0,
        ;
        if event.timestamp >= params.start_us {
            ordered_events_count_in_their_window(params, events, n - 1);
            let own = window_after(params, events, n);
            let d = event.timestamp - params.start_us;
            if k * acq <= d && d < (k + 1) * acq {
                assert(own == k) by (nonlinear_arith)
                    requires
                        k * acq <= d < (k + 1) * acq,
                        own * acq <= d < (own + 1) * acq,
                        acq > 0,
                ;
            }
        }
    }
}

/// Events that are not before `until` do not count.
proof fn late_events_do_not_count(
    events: Seq<CdEvent>,
    n: int,
    from: int,
    until: int,
    x: int,
    y: int,
)
    requires
        0 <= n <= events.len(),
        forall|j: int| n <= j < events.len() ==> (#[trigger] events[j]).timestamp >= until,
    ensures
        events_between(events, from, until, x, y) == events_between(
            events.take(n),
            from,
            until,
            x,
            y,
        ),
    decreases events.len(),
{
    if n < events.len() {
        late_events_do_not_count(events.drop_last(), n, from, until, x, y);
        assert(events.drop_last().take(n) =~= events.take(n));
    } else {
        assert(events.take(n) =~= events);
    }
}

/// How many of the events of a list in order are before a time.
proof fn split_at_end(events: Seq<CdEvent>, end: u64, n: int) -> (split: int)
    requires
        in_time_order(events),
        0 <= n <= events.len(),
        forall|j: int| 0 <= j < n ==> (#[trigger] events[j]).timestamp < end,
    ensures
        0 <= split <= events.len(),
        before_end(events, end) == events.take(split),
        forall|j: int| 0 <= j < split ==> (#[trigger] events[j]).timestamp < end,
        forall|j: int| split <= j < events.len() ==> (#[trigger] events[j]).timestamp >= end,
    decreases events.len() - n,
{
    if n < events.len() && events[n].timestamp < end {
        split_at_end(events, end, n + 1)
    } else {
        before_end_of_prefix(events, end, n);
        n
    }
}

/// The page of a window of ordered events counts, for each exported pixel, the
/// events of either polarity whose times lie in the window.
pub proof fn pages_count_their_windows(params: ValidatedExportParams, events: Seq<CdEvent>)
    requires
        params.wf(),
        in_time_order(events),
    ensures
        counts_windows(params, events, stack_of(params, events)),
{
    let pages = stack_of(params, events);
    let kept = before_end(events, params.end_us);
    let split = split_at_end(events, params.end_us, 0);
    windows_positive(
        params.start_us as int,
        params.end_us as int,
        params.acq_time_us as int,
    );
    assert forall|k: int, x: int, y: int|
        0 <= k < pages.len() && params.exports(x, y) implies #[trigger] pages[k][params.place(x, y)]
        == clipped(
        events_between(
            events,
            params.start_us + k * params.acq_time_us,
            params.window_end(k),
            x,
            y,
        ),
    ) by {
        let from = params.start_us + k * params.acq_time_us;
        let until = params.window_end(k);
        let frame = frame_of(params, kept, kept.len(), k);
        let i = params.place(x, y);
        window_counts(params, kept, kept.len(), k, x, y);
        assert(kept.take(kept.len() as int) =~= kept);
        late_events_do_not_count(events, split, from, until, x, y);
        pixel_in_frame(params, x, y);
        assert(frame[y * params.width + x] == clipped(
            pixel_count(params, kept, kept.len(), k, x, y),
        ));
        if let Some(roi) = params.roi {
            let (row, column, w) = (y - roi.y, x - roi.x, roi.width as int);
            assert(0 <= row * w + column < w * roi.height) by (nonlinear_arith)
                requires
                    0 <= column < w,
                    0 <= row < roi.height,
            ;
            assert(w * row == row * w) by (nonlinear_arith);
            vstd::arithmetic::div_mod::lemma_fundamental_div_mod_converse(i, w, row, column);
        }
        assert(pages[k][i] == frame[y * params.width + x]);
    }
}

/// An export has as many pages as were estimated, whatever the events, where
/// the rounded time fits in 64 bits; the estimate goes no further than pages
/// can be numbered. Every page has the size of the exported region.
pub proof fn export_has_the_estimated_pages(params: ValidatedExportParams, events: Seq<CdEvent>)
    requires
        params.wf(),
        params.end_us - params.start_us + params.acq_time_us - 1 <= u64::MAX,
    ensures
        ({
            let pages = stack_of(params, events).len();
            estimated(params.start_us, params.end_us, params.acq_time_us) == if pages > usize::MAX {
                usize::MAX as int
            } else {
                pages as int
            }
        }),
        forall|k: int|
            0 <= k < stack_of(params, events).len() ==> (#[trigger] stack_of(params, events)[k]).len()
                == params.output_width * params.output_height,
{
    windows_positive(
        params.start_us as int,
        params.end_us as int,
        params.acq_time_us as int,
    );
    assert(params.width * params.height >= 0) by (nonlinear_arith);
    if let Some(roi) = params.roi {
        assert(roi.width * roi.height >= 0) by (nonlinear_arith);
    }
}

/// As many windows as it takes to cover the time, and no more.
pub proof fn windows_just_cover_the_time(start: int, end: int, acq: int)
    requires
        start < end,
        acq > 0,
    ensures
        windows(start, end, acq) * acq >= end - start,
        (windows(start, end, acq) - 1) * acq < end - start,
        windows(end, start, acq) == 0,
        windows(start, start, acq) == 0,
{
    let n = end - start + acq - 1;
    let w = n / acq;
    assert(w * acq <= n < w * acq + acq) by (nonlinear_arith)
        requires
            acq > 0,
            w == n / acq,
    ;
    assert((w - 1) * acq == w * acq - acq) by (nonlinear_arith);
}

/// A page holds counts as they are up to 65535, and this number for all above.
pub proof fn counts_stop_at_the_top(count: nat)
    ensures
        count <= 65535 ==> clipped(count) == count,
        count > 65535 ==> clipped(count) == 65535,
{
}

/// The events of an export are those before its end, up to the first one that
/// is not.
pub proof fn events_stop_at_the_end(events: Seq<CdEvent>, end: u64)
    ensures
        ({
            let kept = before_end(events, end);
            &&& kept.len() <= events.len()
            &&& kept == events.take(kept.len() as int)
            &&& forall|i: int| 0 <= i < kept.len() ==> (#[trigger] kept[i]).timestamp < end
            &&& kept.len() < events.len() ==> events[kept.len() as int].timestamp >= end
        }),
    decreases events.len(),
{
    let kept = before_end(events, end);
    if events.len() > 0 && events[0].timestamp < end {
        let rest = events.drop_first();
        events_stop_at_the_end(rest, end);
        let more = before_end(rest, end);
        assert(kept =~= events.take(kept.len() as int)) by {
            assert forall|i: int| 0 <= i < kept.len() implies kept[i] == events[i] by {
                if i > 0 {
                    assert(kept[i] == more[i - 1]);
                    assert(more[i - 1] == rest[i - 1]);
                }
            }
        }
        assert forall|i: int| 0 <= i < kept.len() implies (#[trigger] kept[i]).timestamp < end by {
            if i > 0 {
                assert(kept[i] == more[i - 1]);
            }
        }
        if kept.len() < events.len() {
            assert(rest[more.len() as int] == events[kept.len() as int]);
        }
    } else {
        assert(kept =~= events.take(0));
    }
}

/// A region fits a sensor where its first and its last pixel lie on it.
pub proof fn regions_fit_by_their_corners(roi: RoiConfig, width: u16, height: u16)
    ensures
        roi_fits(roi, width, height) <==> roi.width > 0 && roi.height > 0 && roi.x + roi.width - 1
            < width && roi.y + roi.height - 1 < height,
{
}

/// The pages of a region hold its pixels row by row: the pixel of the sensor
/// that stands at a place of a page is the one in that column and row of the
/// region.
pub proof fn pages_hold_the_region(
    params: ValidatedExportParams,
    frame: Seq<u16>,
    column: int,
    row: int,
)
    requires
        params.wf(),
        frame.len() == params.width * params.height,
        0 <= column < params.output_width,
        0 <= row < params.output_height,
    ensures
        ({
            let (x0, y0) = match params.roi {
                Some(roi) => (roi.x as int, roi.y as int),
                None => (0int, 0int),
            };
            cropped(params, frame)[row * params.output_width + column] == frame[(y0 + row)
                * params.width + (x0 + column)]
        }),
{
    if let Some(roi) = params.roi {
        let w = roi.width as int;
        let i = row * w + column;
        assert(i / w == row && i % w == column && 0 <= i < w * roi.height) by (nonlinear_arith)
            requires
                i == row * w + column,
                0 <= column < w,
                0 <= row < roi.height,
                w > 0,
        ;
        assert(roi.width * roi.height == w * roi.height);
    }
}

} // verus!
