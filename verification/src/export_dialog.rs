//! The dialog that exports a replay as a TIFF stack: time range, region,
//! target, and the question before a file is replaced.
use crate::analysis_runs::{at_least_one, ms_to_us, saturated_sum, saturating_us};
use crate::binary64::{Real64};
use crate::export::{estimate_tiff_stack_frames, estimated, TiffStackExportParams};
use crate::naming::{default_export_name, stack_name, SplitPath};
use crate::rows::RoiConfig;
use crate::seconds::{micros, seconds_of, seconds_to_us, us_to_seconds};
use crate::text::{blank, decimal, is_blank, push_decimal, trimmed};
use vstd::prelude::*;

verus! {

/// What the dialog asks for.
#[derive(Debug)]
pub enum ExportDialogAction {
    Export(TiffStackExportParams),
    Cancel,
}

/// What the dialog has to know of a replay file.
#[derive(Debug, Clone, Copy, PartialEq, Eq, Structural)]
pub struct ReplaySpan {
    pub first_timestamp_us: u64,
    pub total_duration_us: u64,
    pub width: u16,
    pub height: u16,
}

#[derive(Debug)]
pub struct ExportDialog {
    pub open: bool,
    pub exporting: bool,
    pub total_duration_us: u64,
    pub first_timestamp_us: u64,
    pub width: u16,
    pub height: u16,
    pub current_roi: RoiConfig,
    pub start_seconds: Real64,
    pub end_seconds: Real64,
    pub acq_time_ms: u64,
    pub crop_to_roi: bool,
    pub output_path: String,
    /// Whether the current path was confirmed for overwriting. An edit takes
    /// the confirmation back.
    pub overwrite_confirmed: bool,
    pub pending_overwrite: Option<TiffStackExportParams>,
    pub error: Option<String>,
    pub info: Option<String>,
}

/// Whether a region is the whole sensor.
pub open spec fn is_full_frame(roi: RoiConfig, width: u16, height: u16) -> bool {
    roi.x == 0 && roi.y == 0 && roi.width == width && roi.height == height
}

pub fn roi_matches_full_frame(roi: RoiConfig, width: u16, height: u16) -> (out: bool)
    ensures
        out == is_full_frame(roi, width, height),
{
    roi.x == 0 && roi.y == 0 && roi.width == width && roi.height == height
}

impl ExportDialog {
    /// The dialog before it is opened; `full_frame` is the region of a whole
    /// sensor.
    pub fn closed(full_frame: RoiConfig) -> (out: Self)
        ensures
            !out.open,
            !out.exporting,
            out.total_duration_us == 0,
            out.first_timestamp_us == 0,
            out.width == 0,
            out.height == 0,
            out.current_roi == full_frame,
            out.start_seconds.bits == 0,
            out.end_seconds.bits == 0,
            out.acq_time_ms == 50,
            !out.crop_to_roi,
            out.output_path@ == Seq::<char>::empty(),
            !out.overwrite_confirmed,
            out.pending_overwrite is None,
            out.error is None,
            out.info is None,
    {
        ExportDialog {
            open: false,
            exporting: false,
            total_duration_us: 0,
            first_timestamp_us: 0,
            width: 0,
            height: 0,
            current_roi: full_frame,
            start_seconds: Real64 { bits: 0 },
            end_seconds: Real64 { bits: 0 },
            acq_time_ms: 50,
            crop_to_roi: false,
            output_path: String::new(),
            overwrite_confirmed: false,
            pending_overwrite: None,
            error: None,
            info: None,
        }
    }

    /// The time that a replay counts as: at least one window.
    pub open spec fn effective_duration(total_us: u64, acq_time_ms: u64) -> int {
        let window = at_least_one(acq_time_ms) * 1_000;
        if total_us >= window {
            total_us as int
        } else {
            window as int
        }
    }

    /// Opens the dialog for a replay, with the whole recording as its range.
    pub fn open_for_replay(
        &mut self,
        replay_path: &SplitPath,
        separator: char,
        info: ReplaySpan,
        acq_time_ms: u64,
        roi: RoiConfig,
    )
        requires
            acq_time_ms * 1_000 <= u64::MAX,
        ensures
            final(self).open,
            !final(self).exporting,
            final(self).total_duration_us == Self::effective_duration(
                info.total_duration_us,
                acq_time_ms,
            ),
            final(self).first_timestamp_us == info.first_timestamp_us,
            final(self).width == info.width,
            final(self).height == info.height,
            final(self).current_roi == roi,
            final(self).start_seconds.bits == 0,
            final(self).end_seconds.bits == seconds_of(final(self).total_duration_us as nat),
            final(self).acq_time_ms == at_least_one(acq_time_ms),
            final(self).crop_to_roi == !is_full_frame(roi, info.width, info.height),
            final(self).output_path@ == replay_path.renamed(
                stack_name(replay_path.name_text()),
                separator,
            ),
            !final(self).overwrite_confirmed,
            final(self).pending_overwrite is None,
            final(self).error is None,
            final(self).info is None,
    {
        let acq: u64 = if acq_time_ms == 0 {
            1
        } else {
            acq_time_ms
        };
        let window: u64 = acq * 1_000;
        let effective: u64 = if info.total_duration_us >= window {
            info.total_duration_us
        } else {
            window
        };
        let name: Option<&str> = match &replay_path.file_name {
            Some(n) => Some(n.as_str()),
            None => None,
        };
        let file_name = default_export_name(name);
        self.open = true;
        self.exporting = false;
        self.total_duration_us = effective;
        self.first_timestamp_us = info.first_timestamp_us;
        self.width = info.width;
        self.height = info.height;
        self.current_roi = roi;
        self.start_seconds = Real64 { bits: 0 };
        self.end_seconds = us_to_seconds(effective);
        self.acq_time_ms = acq;
        self.crop_to_roi = !roi_matches_full_frame(roi, info.width, info.height);
        self.output_path = replay_path.with_file_name(file_name.as_str(), separator);
        self.overwrite_confirmed = false;
        self.pending_overwrite = None;
        self.error = None;
        self.info = None;
    }

    /// Marks the export as running or not.
    pub fn set_exporting(&mut self, exporting: bool)
        ensures
            exporting ==> *final(self) == (ExportDialog {
                exporting: true,
                error: None,
                info: None,
                pending_overwrite: None,
                ..*old(self)
            }),
            !exporting ==> *final(self) == (ExportDialog { exporting: false, ..*old(self) }),
    {
        self.exporting = exporting;
        if exporting {
            self.error = None;
            self.info = None;
            self.pending_overwrite = None;
        }
    }

    /// The export wrote its frames.
    pub fn finish_success(&mut self, frame_count: usize, output_path: &str)
        ensures
            final(self).info matches Some(text) && text@ == "Exported "@ + decimal(
                frame_count as nat,
            ) + " frame(s) to "@ + output_path@,
            *final(self) == (ExportDialog {
                exporting: false,
                error: None,
                info: final(self).info,
                ..*old(self)
            }),
    {
        let mut text = "Exported ".to_owned();
        push_decimal(&mut text, frame_count as u64);
        text.append(" frame(s) to ");
        text.append(output_path);
        self.exporting = false;
        self.info = Some(text);
        self.error = None;
    }

    /// The export failed.
    pub fn finish_error(&mut self, message: String)
        ensures
            *final(self) == (ExportDialog {
                exporting: false,
                error: Some(message),
                info: None,
                ..*old(self)
            }),
    {
        self.exporting = false;
        self.error = Some(message);
        self.info = None;
    }

    /// The end of the sliders, in seconds.
    pub open spec fn slider_end(self) -> Real64 {
        Real64 { bits: seconds_of(self.total_duration_us as nat) as u64 }
    }

    /// Whether the range lies on the sliders.
    pub open spec fn range_in_order(self) -> bool {
        &&& (Real64 { bits: 0 }).le(self.start_seconds)
        &&& self.start_seconds.le(self.end_seconds)
        &&& self.end_seconds.le(self.slider_end())
        &&& self.acq_time_ms >= 1
    }

    /// Moves the range onto the sliders, as every pass over the dialog begins.
    pub fn settle(&mut self)
        requires
            !old(self).start_seconds.is_nan(),
        ensures
            !old(self).end_seconds.is_nan() ==> final(self).range_in_order(),
            *final(self) == (ExportDialog {
                start_seconds: old(self).start_seconds.within(
                    Real64 { bits: 0 },
                    old(self).slider_end(),
                ),
                end_seconds: old(self).end_seconds.within(
                    old(self).start_seconds.within(Real64 { bits: 0 }, old(self).slider_end()),
                    old(self).slider_end(),
                ),
                acq_time_ms: at_least_one(old(self).acq_time_ms),
                ..*old(self)
            }),
    {
        let limit = us_to_seconds(self.total_duration_us);
        let start = self.start_seconds.clamped(Real64 { bits: 0 }, limit);
        self.start_seconds = start;
        self.end_seconds = self.end_seconds.clamped(start, limit);
        if self.acq_time_ms == 0 {
            self.acq_time_ms = 1;
        }
    }

    /// The start slider was moved: it pushes the end along.
    pub fn move_start(&mut self, to: Real64)
        ensures
            (Real64 { bits: 0 }).le(to) && to.le(old(self).slider_end()) && (old(
                self,
            ).end_seconds.is_nan() || old(self).end_seconds.le(old(self).slider_end())) && old(
                self,
            ).acq_time_ms >= 1 ==> final(self).range_in_order(),
            *final(self) == (ExportDialog {
                start_seconds: to,
                end_seconds: old(self).end_seconds.larger_of(to),
                ..*old(self)
            }),
    {
        self.start_seconds = to;
        self.end_seconds = self.end_seconds.larger(to);
    }

    /// The path was edited by hand: nobody has confirmed it yet.
    pub fn path_edited(&mut self, text: String)
        ensures
            *final(self) == (ExportDialog {
                output_path: text,
                overwrite_confirmed: false,
                pending_overwrite: None,
                ..*old(self)
            }),
    {
        self.output_path = text;
        self.overwrite_confirmed = false;
        self.pending_overwrite = None;
    }

    /// The path was picked in the system's dialog, which has asked about
    /// overwriting it.
    pub fn path_picked(&mut self, path: String)
        ensures
            *final(self) == (ExportDialog {
                output_path: path,
                overwrite_confirmed: true,
                pending_overwrite: None,
                ..*old(self)
            }),
    {
        self.output_path = path;
        self.overwrite_confirmed = true;
        self.pending_overwrite = None;
    }

    /// The number of frames that the export is said to have.
    pub fn estimated_frames(&self) -> (out: usize)
        ensures
            out == estimated(
                micros(self.start_seconds) as u64,
                micros(self.end_seconds) as u64,
                ms_to_us(self.acq_time_ms),
            ),
    {
        estimate_tiff_stack_frames(
            seconds_to_us(self.start_seconds),
            seconds_to_us(self.end_seconds),
            saturating_us(self.acq_time_ms),
        )
    }

    /// Why the export cannot be started as it is configured.
    pub open spec fn export_problem(self) -> Option<Seq<char>> {
        if is_blank(self.output_path@) {
            Some("choose an output path"@)
        } else if micros(self.end_seconds) <= micros(self.start_seconds) {
            Some("end time must be greater than start time"@)
        } else {
            None
        }
    }

    /// Whether `params` is what the dialog describes, for a path that was
    /// taken apart as `path`.
    pub open spec fn describes(self, path: SplitPath, params: TiffStackExportParams) -> bool {
        &&& params.acq_time_us == ms_to_us(self.acq_time_ms)
        &&& params.start_us == saturated_sum(self.first_timestamp_us, micros(self.start_seconds))
        &&& params.end_us == saturated_sum(self.first_timestamp_us, micros(self.end_seconds))
        &&& params.roi == (if self.crop_to_roi {
            Some(self.current_roi)
        } else {
            None
        })
        &&& params.output_path@ == path.extended("tiff"@)
        &&& params.width == self.width
        &&& params.height == self.height
    }

    /// The parameters of the export. The path is the one that gets written,
    /// with its extension, so that the question before overwriting names it.
    pub fn build_export_params(&self, path: &SplitPath) -> (out: Result<
        TiffStackExportParams,
        String,
    >)
        requires
            path.text() == trimmed(self.output_path@),
        ensures
            match out {
                Ok(params) => self.export_problem() is None && self.describes(*path, params),
                Err(text) => self.export_problem() == Some(text@),
            },
    {
        if blank(self.output_path.as_str()) {
            return Err("choose an output path".to_owned());
        }
        let start_offset_us: u64 = seconds_to_us(self.start_seconds);
        let end_offset_us: u64 = seconds_to_us(self.end_seconds);
        if end_offset_us <= start_offset_us {
            return Err("end time must be greater than start time".to_owned());
        }
        Ok(
            TiffStackExportParams {
                acq_time_us: saturating_us(self.acq_time_ms),
                start_us: self.first_timestamp_us.saturating_add(start_offset_us),
                end_us: self.first_timestamp_us.saturating_add(end_offset_us),
                roi: if self.crop_to_roi {
                    Some(self.current_roi)
                } else {
                    None
                },
                output_path: path.ensure_extension("tiff"),
                width: self.width,
                height: self.height,
            },
        )
    }

    /// The path that the export button would write to, where there is one.
    pub fn target_path(&self, path: &SplitPath) -> (out: String)
        ensures
            out@ == path.extended("tiff"@),
    {
        path.ensure_extension("tiff")
    }

    /// The export button was pressed. `exists` tells whether the target path
    /// is there already: a file that nobody has confirmed for overwriting is
    /// asked about first. The button has no effect while an export runs.
    pub fn export_pressed(&mut self, path: &SplitPath, exists: bool) -> (out: Option<
        ExportDialogAction,
    >)
        requires
            path.text() == trimmed(old(self).output_path@),
        ensures
            ({
                let before = *old(self);
                let ready = !before.exporting && before.export_problem() is None;
                let asks = !before.overwrite_confirmed && exists;
                &&& out is Some <==> ready && !asks
                &&& out matches Some(action) ==> (action matches ExportDialogAction::Export(params)
                    && before.describes(*path, params)) && *final(self) == (ExportDialog {
                    error: None,
                    info: None,
                    pending_overwrite: None,
                    ..before
                })
                &&& ready && asks ==> {
                    &&& final(self).pending_overwrite matches Some(params) && before.describes(
                        *path,
                        params,
                    )
                    &&& *final(self) == (ExportDialog {
                        error: None,
                        info: None,
                        pending_overwrite: final(self).pending_overwrite,
                        ..before
                    })
                }
                &&& before.exporting ==> *final(self) == before
                &&& !before.exporting && before.export_problem() is Some ==> {
                    &&& final(self).error matches Some(text) && before.export_problem() == Some(
                        text@,
                    )
                    &&& *final(self) == (ExportDialog { error: final(self).error, ..before })
                }
            }),
    {
        if self.exporting {
            return None;
        }
        match self.build_export_params(path) {
            Ok(params) => {
                self.error = None;
                self.info = None;
                if !self.overwrite_confirmed && exists {
                    self.pending_overwrite = Some(params);
                    None
                } else {
                    self.pending_overwrite = None;
                    Some(ExportDialogAction::Export(params))
                }
            },
            Err(text) => {
                self.error = Some(text);
                None
            },
        }
    }

    /// Overwriting was agreed to: the export that waits for it starts.
    pub fn overwrite_pressed(&mut self) -> (out: Option<ExportDialogAction>)
        ensures
            match old(self).pending_overwrite {
                Some(params) => out == Some(ExportDialogAction::Export(params)) && *final(self) == (
                ExportDialog {
                    overwrite_confirmed: true,
                    pending_overwrite: None,
                    error: None,
                    info: None,
                    ..*old(self)
                }),
                None => out is None && *final(self) == (ExportDialog {
                    overwrite_confirmed: true,
                    ..*old(self)
                }),
            },
    {
        self.overwrite_confirmed = true;
        match self.pending_overwrite.take() {
            Some(params) => {
                self.error = None;
                self.info = None;
                Some(ExportDialogAction::Export(params))
            },
            None => None,
        }
    }

    /// The existing file is kept: the export that waits is dropped.
    pub fn keep_pressed(&mut self)
        ensures
            *final(self) == (ExportDialog { pending_overwrite: None, ..*old(self) }),
    {
        self.pending_overwrite = None;
    }

    /// Ends a pass over the dialog. `window_open` tells whether its window is
    /// still open, `cancelled` whether its cancel button was pressed, and
    /// `action` what the other buttons led to. While an export runs the
    /// dialog stays open.
    pub fn finish_pass(
        &mut self,
        window_open: bool,
        cancelled: bool,
        action: Option<ExportDialogAction>,
    ) -> (out: Option<ExportDialogAction>)
        ensures
            final(self).open == (old(self).exporting || window_open),
            *final(self) == (ExportDialog { open: final(self).open, ..*old(self) }),
            out == (if cancelled && !old(self).exporting {
                Some(ExportDialogAction::Cancel)
            } else if action is Some {
                action
            } else if !final(self).open {
                Some(ExportDialogAction::Cancel)
            } else {
                None
            }),
    {
        self.open = self.exporting || window_open;
        if cancelled && !self.exporting {
            return Some(ExportDialogAction::Cancel);
        }
        if action.is_some() {
            return action;
        }
        if !self.open {
            Some(ExportDialogAction::Cancel)
        } else {
            None
        }
    }

    /// The question before an existing file is replaced.
    pub fn overwrite_question(&self) -> (out: Option<String>)
        ensures
            match out {
                Some(text) => self.pending_overwrite matches Some(params) && text@
                    == params.output_path@ + " already exists."@,
                None => self.pending_overwrite is None,
            },
    {
        match &self.pending_overwrite {
            Some(params) => {
                let mut text = params.output_path.clone();
                text.append(" already exists.");
                Some(text)
            },
            None => None,
        }
    }

    /// The label of the option that crops the frames.
    pub fn roi_label(&self) -> (out: String)
        ensures
            out@ == "Crop to current ROI ("@ + decimal(self.current_roi.x as nat) + ","@ + decimal(
                self.current_roi.y as nat,
            ) + " "@ + decimal(self.current_roi.width as nat) + "x"@ + decimal(
                self.current_roi.height as nat,
            ) + ")"@,
    {
        let mut out = "Crop to current ROI (".to_owned();
        push_decimal(&mut out, self.current_roi.x as u64);
        out.append(",");
        push_decimal(&mut out, self.current_roi.y as u64);
        out.append(" ");
        push_decimal(&mut out, self.current_roi.width as u64);
        out.append("x");
        push_decimal(&mut out, self.current_roi.height as u64);
        out.append(")");
        out
    }
}

// ---------------------------------------------------------------------------
// Laws
// ---------------------------------------------------------------------------
/// An export is as long as the range on the sliders, begins as far behind the
/// first event as the range does, and has windows of the chosen milliseconds.
pub proof fn exports_keep_to_the_sliders(
    dialog: ExportDialog,
    path: SplitPath,
    params: TiffStackExportParams,
)
    requires
        dialog.describes(path, params),
        dialog.first_timestamp_us + micros(dialog.start_seconds) <= u64::MAX,
        dialog.first_timestamp_us + micros(dialog.end_seconds) <= u64::MAX,
        dialog.acq_time_ms * 1_000 <= u64::MAX,
    ensures
        params.start_us == dialog.first_timestamp_us + micros(dialog.start_seconds),
        params.end_us == dialog.first_timestamp_us + micros(dialog.end_seconds),
        params.acq_time_us == dialog.acq_time_ms * 1_000,
        dialog.crop_to_roi ==> params.roi == Some(dialog.current_roi),
        !dialog.crop_to_roi ==> params.roi is None,
        params.width == dialog.width && params.height == dialog.height,
{
}

/// An export can be started once it has a path and its range goes forward.
pub proof fn complete_exports_have_no_problem(dialog: ExportDialog)
    ensures
        dialog.export_problem() is None <==> !is_blank(dialog.output_path@) && micros(
            dialog.start_seconds,
        ) < micros(dialog.end_seconds),
        is_blank(dialog.output_path@) ==> dialog.export_problem() == Some("choose an output path"@),
{
}

/// A region is the whole sensor only where no pixel lies outside of it.
pub proof fn full_regions_hold_every_pixel(roi: RoiConfig, width: u16, height: u16)
    requires
        width > 0,
        height > 0,
    ensures
        is_full_frame(roi, width, height) ==> roi.x + roi.width == width && roi.y + roi.height
            == height && roi.x == 0 && roi.y == 0,
        roi.x > 0 || roi.y > 0 || roi.width < width || roi.height < height ==> !is_full_frame(
            roi,
            width,
            height,
        ),
        is_full_frame(RoiConfig { x: 0, y: 0, width, height }, width, height),
{
}

/// A replay counts as one window at least.
pub proof fn durations_hold_a_window(total_us: u64, acq_time_ms: u64)
    requires
        acq_time_ms > 0,
    ensures
        total_us >= acq_time_ms * 1_000 ==> ExportDialog::effective_duration(total_us, acq_time_ms)
            == total_us,
        total_us < acq_time_ms * 1_000 ==> ExportDialog::effective_duration(total_us, acq_time_ms)
            == acq_time_ms * 1_000,
{
}

} // verus!
