//! What a session does: opening and closing replays, starting the camera, the
//! lines of the status bar, and the errors that it shows.
use crate::export_dialog::ExportDialog;
use crate::naming::{
    insert_timestamp_suffix, join_path, optional_text, path_below, stamped, SplitPath,
};
use crate::replay::{AppMode, ReplayFileInfo};
use crate::text::{same_text, trim_text, trimmed};
use vstd::prelude::*;

verus! {

/// The status line of a session without a camera that runs.
pub open spec fn idle_status() -> Seq<char> {
    "Camera idle. Current local settings will be used for the next recording."@
}

/// The lines that a session shows.
#[derive(Debug)]
pub struct Status {
    pub camera_status: String,
    pub last_error: Option<String>,
    pub replay_notice: Option<String>,
}

/// The lines as texts.
#[verifier::ext_equal]
pub struct StatusView {
    pub camera_status: Seq<char>,
    pub last_error: Option<Seq<char>>,
    pub replay_notice: Option<Seq<char>>,
}

/// The text of a line that may be absent.
pub open spec fn text_in(line: Option<String>) -> Option<Seq<char>> {
    match line {
        Some(text) => Some(text@),
        None => None,
    }
}

impl View for Status {
    type V = StatusView;

    open spec fn view(&self) -> StatusView {
        StatusView {
            camera_status: self.camera_status@,
            last_error: text_in(self.last_error),
            replay_notice: text_in(self.replay_notice),
        }
    }
}

/// What a camera says of itself.
#[derive(Debug)]
pub struct CameraIdentity {
    pub model: String,
    pub serial: Option<String>,
}

impl CameraIdentity {
    pub open spec fn serial_text(self) -> Seq<char> {
        match self.serial {
            Some(serial) => "(serial "@ + serial@ + ")"@,
            None => Seq::empty(),
        }
    }

    /// The status line of a camera that was found.
    pub open spec fn ready_text(self) -> Seq<char> {
        trimmed("Ready: "@ + self.model@ + " "@ + self.serial_text())
    }

    fn ready_line(&self) -> (out: String)
        ensures
            out@ == self.ready_text(),
    {
        let mut line = "Ready: ".to_owned();
        line.append(self.model.as_str());
        line.append(" ");
        if let Some(serial) = &self.serial {
            line.append("(serial ");
            line.append(serial.as_str());
            line.append(")");
        }
        assert(line@ =~= "Ready: "@ + self.model@ + " "@ + self.serial_text());
        trim_text(line.as_str())
    }
}

impl Status {
    /// The lines of a new session.
    pub fn new(plugin_scan_error: Option<String>) -> (out: Self)
        ensures
            out@ == (StatusView {
                camera_status: "Camera not probed yet."@,
                last_error: text_in(plugin_scan_error),
                replay_notice: None,
            }),
    {
        Status {
            camera_status: "Camera not probed yet.".to_owned(),
            last_error: plugin_scan_error,
            replay_notice: None,
        }
    }

    /// A camera was looked for.
    pub fn probed(&mut self, outcome: Result<&CameraIdentity, String>)
        ensures
            final(self)@ == (match outcome {
                Ok(camera) => StatusView {
                    camera_status: camera.ready_text(),
                    last_error: None,
                    ..old(self)@
                },
                Err(error) => StatusView {
                    camera_status: "Probe failed: "@ + error@,
                    last_error: Some("camera probe failed: "@ + error@),
                    ..old(self)@
                },
            }),
    {
        match outcome {
            Ok(camera) => {
                self.camera_status = camera.ready_line();
                self.last_error = None;
            },
            Err(error) => {
                let mut line = "Probe failed: ".to_owned();
                line.append(error.as_str());
                self.camera_status = line;
                let mut problem = "camera probe failed: ".to_owned();
                problem.append(error.as_str());
                self.last_error = Some(problem);
            },
        }
    }

    pub fn failed(&mut self, error: String)
        ensures
            final(self)@ == (StatusView { last_error: Some(error@), ..old(self)@ }),
    {
        self.last_error = Some(error);
    }

    /// The camera runs.
    pub fn started(&mut self, recording: bool)
        ensures
            final(self)@ == (StatusView {
                camera_status: if recording {
                    "Recording in progress."@
                } else {
                    "Previewing."@
                },
                last_error: None,
                ..old(self)@
            }),
    {
        self.last_error = None;
        self.camera_status = if recording {
            "Recording in progress.".to_owned()
        } else {
            "Previewing.".to_owned()
        };
    }

    /// A replay file is read in the background.
    pub fn replay_opening(&mut self, name: &str)
        ensures
            final(self)@ == (StatusView {
                camera_status: "Opening "@ + name@ + "…"@,
                last_error: None,
                replay_notice: Some("Opening replay..."@),
            }),
    {
        self.replay_notice = Some("Opening replay...".to_owned());
        self.last_error = None;
        let mut line = "Opening ".to_owned();
        line.append(name);
        line.append("…");
        self.camera_status = line;
    }

    /// A replay runs.
    pub fn replay_opened(&mut self, name: &str, notice: Option<String>)
        ensures
            final(self)@ == (StatusView {
                camera_status: "Replaying "@ + name@ + "."@,
                last_error: None,
                replay_notice: text_in(notice),
            }),
    {
        self.replay_notice = notice;
        self.last_error = None;
        self.camera_status = replaying_text(name);
    }

    /// A replay runs again, from another place.
    pub fn replay_reopened(&mut self, name: &str)
        ensures
            final(self)@ == (StatusView {
                camera_status: "Replaying "@ + name@ + "."@,
                last_error: None,
                ..old(self)@
            }),
    {
        self.last_error = None;
        self.camera_status = replaying_text(name);
    }

    /// A replay file that was read in the background could not be opened.
    pub fn replay_open_failed(&mut self, error: Option<String>)
        ensures
            final(self)@ == (StatusView {
                camera_status: idle_status(),
                last_error: Some(
                    match error {
                        Some(error) => error@,
                        None => "replay open worker disconnected unexpectedly"@,
                    },
                ),
                replay_notice: None,
            }),
    {
        self.replay_notice = None;
        self.last_error = Some(
            match error {
                Some(error) => error,
                None => "replay open worker disconnected unexpectedly".to_owned(),
            },
        );
        self.camera_status =
        "Camera idle. Current local settings will be used for the next recording.".to_owned();
    }

    /// The pipeline is shut down. Its own failure to do so is shown.
    pub fn stopped(&mut self, was_replaying: bool, shutdown_error: Option<String>)
        ensures
            final(self)@ == (StatusView {
                camera_status: idle_status(),
                last_error: match shutdown_error {
                    Some(error) => Some("pipeline shutdown failed: "@ + error@),
                    None => old(self)@.last_error,
                },
                replay_notice: if was_replaying {
                    None
                } else {
                    old(self)@.replay_notice
                },
            }),
    {
        if let Some(error) = shutdown_error {
            self.last_error = Some(shutdown_text(error.as_str()));
        }
        if was_replaying {
            self.replay_notice = None;
        }
        self.camera_status =
        "Camera idle. Current local settings will be used for the next recording.".to_owned();
    }

    /// The replay is at its end. Where something went wrong, the status line
    /// stays.
    pub fn replay_finished(&mut self, shutdown_error: Option<String>)
        ensures
            final(self)@ == ({
                let error = match shutdown_error {
                    Some(error) => Some("pipeline shutdown failed: "@ + error@),
                    None => old(self)@.last_error,
                };
                StatusView {
                    last_error: error,
                    camera_status: if error is None {
                        "Replay finished."@
                    } else {
                        old(self)@.camera_status
                    },
                    ..old(self)@
                }
            }),
    {
        if let Some(error) = shutdown_error {
            self.last_error = Some(shutdown_text(error.as_str()));
        }
        if self.last_error.is_none() {
            self.camera_status = "Replay finished.".to_owned();
        }
    }
}

fn replaying_text(name: &str) -> (out: String)
    ensures
        out@ == "Replaying "@ + name@ + "."@,
{
    let mut line = "Replaying ".to_owned();
    line.append(name);
    line.append(".");
    line
}

fn shutdown_text(error: &str) -> (out: String)
    ensures
        out@ == "pipeline shutdown failed: "@ + error@,
{
    let mut line = "pipeline shutdown failed: ".to_owned();
    line.append(error);
    line
}

/// What the pipeline reports.
#[derive(Debug)]
pub struct PipelineReport {
    pub error: Option<String>,
    /// Whether it has stopped, and gave all of its frames.
    pub drained: bool,
}

/// What follows from a report of the pipeline.
#[derive(Debug, Clone, Copy, PartialEq, Eq, Structural)]
pub enum PipelineStep {
    Nothing,
    Stop,
    FinishReplay,
}

/// Takes a report of the pipeline: an error stops it, and a replay whose
/// frames are all there is finished.
pub fn poll_pipeline_state(status: &mut Status, mode: AppMode, report: Option<PipelineReport>) ->
    (out: PipelineStep)
    ensures
        out == (match report {
            Some(report) => if report.error is Some {
                PipelineStep::Stop
            } else if mode == AppMode::Replaying && report.drained {
                PipelineStep::FinishReplay
            } else {
                PipelineStep::Nothing
            },
            None => PipelineStep::Nothing,
        }),
        final(status)@ == (StatusView {
            last_error: if out == PipelineStep::Stop {
                text_in(report->0.error)
            } else if out == PipelineStep::FinishReplay {
                None
            } else {
                old(status)@.last_error
            },
            ..old(status)@
        }),
{
    match report {
        None => PipelineStep::Nothing,
        Some(report) => {
            if let Some(error) = report.error {
                status.last_error = Some(error);
                return PipelineStep::Stop;
            }
            if mode == AppMode::Replaying && report.drained {
                status.last_error = None;
                return PipelineStep::FinishReplay;
            }
            PipelineStep::Nothing
        },
    }
}

/// How a replay file is opened.
#[derive(Debug)]
pub enum ReplayOpening {
    /// The session is busy.
    Ignored,
    /// The file holds the camera's raw words.
    Raw,
    /// The file holds decoded events, which are read in the background.
    Decoded,
    Refused(String),
}

/// Whether files with an extension hold decoded events.
pub open spec fn holds_decoded_events(extension: Seq<char>) -> bool {
    extension == "csv"@ || extension == "bin"@ || extension == "npy"@ || extension == "h5"@
        || extension == "hdf5"@
}

pub open spec fn accepts_replay(mode: AppMode, opening: bool) -> bool {
    mode == AppMode::Idle && !opening
}

/// Whether a replay can be opened now.
pub fn can_open_replay(mode: AppMode, opening: bool) -> (out: bool)
    ensures
        out == accepts_replay(mode, opening),
{
    mode == AppMode::Idle && !opening
}

/// Decides by the extension, in small letters, how a replay file is opened.
pub fn open_replay_file(mode: AppMode, opening: bool, extension: Option<&str>) -> (out:
    ReplayOpening)
    ensures
        !accepts_replay(mode, opening) ==> out is Ignored,
        accepts_replay(mode, opening) ==> (match extension {
            None => out matches ReplayOpening::Refused(problem) && problem@
                == "replay file is missing an extension"@,
            Some(extension) => if extension@ == "raw"@ {
                out is Raw
            } else if holds_decoded_events(extension@) {
                out is Decoded
            } else {
                out matches ReplayOpening::Refused(problem) && problem@
                    == "unsupported replay file extension: ."@ + extension@
            },
        }),
{
    if !can_open_replay(mode, opening) {
        return ReplayOpening::Ignored;
    }
    match extension {
        None => ReplayOpening::Refused("replay file is missing an extension".to_owned()),
        Some(extension) => {
            if same_text(extension, "raw") {
                ReplayOpening::Raw
            } else if same_text(extension, "csv") || same_text(extension, "bin") || same_text(
                extension,
                "npy",
            ) || same_text(extension, "h5") || same_text(extension, "hdf5") {
                ReplayOpening::Decoded
            } else {
                let mut problem = "unsupported replay file extension: .".to_owned();
                problem.append(extension);
                ReplayOpening::Refused(problem)
            }
        },
    }
}

/// Whether the camera can be started for a preview now.
pub fn can_start_preview(mode: AppMode, opening: bool) -> (out: bool)
    ensures
        out == (mode == AppMode::Idle && !opening),
{
    mode == AppMode::Idle && !opening
}

/// How a recording is started.
#[derive(Debug, Clone, Copy, PartialEq, Eq, Structural)]
pub enum RecordingStart {
    Ignored,
    /// A preview is stopped before.
    Start { stop_preview: bool },
}

pub fn start_recording(mode: AppMode, opening: bool) -> (out: RecordingStart)
    ensures
        out == (if mode == AppMode::Recording || opening {
            RecordingStart::Ignored
        } else {
            RecordingStart::Start { stop_preview: mode == AppMode::Previewing }
        }),
{
    if mode == AppMode::Recording || opening {
        return RecordingStart::Ignored;
    }
    RecordingStart::Start { stop_preview: mode == AppMode::Previewing }
}

/// The path that a recording is asked to be written to.
pub fn wanted_output_path(output_path: &str) -> (out: Result<String, String>)
    ensures
        trimmed(output_path@).len() == 0 ==> (out matches Err(problem) && problem@
            == "output path must not be empty"@),
        trimmed(output_path@).len() > 0 ==> (out matches Ok(path) && path@ == trimmed(
            output_path@,
        )),
{
    let path = trim_text(output_path);
    if path.as_str().unicode_len() == 0 {
        return Err("output path must not be empty".to_owned());
    }
    Ok(path)
}

/// A path, with a time stamp in its name where one is to be added. The new name
/// stands in the folder above the path, or in the current one where there is
/// none above.
pub open spec fn maybe_stamped(
    path: SplitPath,
    parent: Option<Seq<char>>,
    add_stamp: bool,
    stamp: Seq<char>,
    separator: char,
) -> Seq<char> {
    if add_stamp {
        path_below(
            match parent {
                Some(folder) => folder,
                None => "."@,
            },
            stamped(path.name_text(), stamp),
            separator,
        )
    } else {
        path.text()
    }
}

/// Adds a time stamp to an output path: where that is always done, and again
/// where a file of that name exists. `parent` is the folder above the path,
/// empty for the current one.
pub fn stamp_output_path(
    path: &SplitPath,
    parent: Option<&str>,
    add_stamp: bool,
    stamp: &str,
    separator: char,
) -> (out: String)
    ensures
        out@ == maybe_stamped(*path, optional_text(parent), add_stamp, stamp@, separator),
{
    if add_stamp {
        let name = match &path.file_name {
            Some(name) => insert_timestamp_suffix(Some(name.as_str()), stamp),
            None => insert_timestamp_suffix(None, stamp),
        };
        let folder = match parent {
            Some(folder) => folder,
            None => ".",
        };
        join_path(folder, name.as_str(), separator)
    } else {
        path.whole_text()
    }
}

/// Where the events of an export come from.
#[derive(Debug)]
pub enum ExportEventSource {
    Decoded,
    RawEvt3 { path: String, data_offset: u64 },
}

/// The events of the open replay, decoded ones first.
pub fn current_export_event_source(
    decoded: bool,
    replay_path: Option<&str>,
    info: Option<&ReplayFileInfo>,
) -> (out: Result<ExportEventSource, String>)
    ensures
        decoded ==> (out matches Ok(source) && source is Decoded),
        !decoded && replay_path is None ==> (out matches Err(problem) && problem@
            == "replay path is missing"@),
        !decoded && replay_path is Some && info is None ==> (out matches Err(problem) && problem@
            == "replay file metadata is missing"@),
        !decoded && replay_path is Some && info is Some ==> (out matches Ok(
            ExportEventSource::RawEvt3 { path, data_offset },
        ) && path@ == replay_path->0@ && data_offset == info->0.data_offset),
{
    if decoded {
        return Ok(ExportEventSource::Decoded);
    }
    match replay_path {
        None => Err("replay path is missing".to_owned()),
        Some(path) => match info {
            None => Err("replay file metadata is missing".to_owned()),
            Some(info) => Ok(
                ExportEventSource::RawEvt3 {
                    path: path.to_owned(),
                    data_offset: info.data_offset,
                },
            ),
        },
    }
}

/// Why the export dialog cannot be opened.
pub fn export_dialog_problem(replay_path_known: bool, info_known: bool) -> (out: Option<String>)
    ensures
        replay_path_known && info_known ==> out is None,
        !replay_path_known ==> (out matches Some(problem) && problem@
            == "replay path is missing"@),
        replay_path_known && !info_known ==> (out matches Some(problem) && problem@
            == "replay file metadata is missing"@),
{
    if !replay_path_known {
        Some("replay path is missing".to_owned())
    } else if !info_known {
        Some("replay file metadata is missing".to_owned())
    } else {
        None
    }
}

/// Begins an export, unless one runs or there are no events for it.
pub fn start_tiff_stack_export(
    dialog: &mut ExportDialog,
    status: &mut Status,
    task_running: bool,
    source: Result<ExportEventSource, String>,
) -> (out: Option<ExportEventSource>)
    ensures
        task_running ==> out is None && *final(dialog) == *old(dialog) && *final(status) == *old(
            status,
        ),
        !task_running ==> (match source {
            Ok(source) => {
                &&& out == Some(source)
                &&& *final(dialog) == (ExportDialog {
                    exporting: true,
                    error: None,
                    info: None,
                    pending_overwrite: None,
                    ..*old(dialog)
                })
                &&& final(status)@ == (StatusView { last_error: None, ..old(status)@ })
            },
            Err(problem) => {
                &&& out is None
                &&& *final(dialog) == (ExportDialog {
                    exporting: false,
                    error: final(dialog).error,
                    info: None,
                    ..*old(dialog)
                })
                &&& text_in(final(dialog).error) == Some(problem@)
                &&& final(status)@ == (StatusView {
                    last_error: Some(problem@),
                    ..old(status)@
                })
            },
        }),
{
    if task_running {
        return None;
    }
    match source {
        Ok(source) => {
            dialog.set_exporting(true);
            status.last_error = None;
            Some(source)
        },
        Err(problem) => {
            dialog.finish_error(problem.clone());
            status.last_error = Some(problem);
            None
        },
    }
}

/// What an export that runs reports.
#[derive(Debug)]
pub enum ExportReport {
    Running,
    Written(usize),
    Failed(String),
    /// It ended without a word.
    Lost,
}

impl ExportReport {
    /// Why the export failed.
    pub open spec fn problem(self) -> Option<Seq<char>> {
        match self {
            ExportReport::Failed(problem) => Some(problem@),
            ExportReport::Lost => Some("TIFF export task ended unexpectedly"@),
            _ => None,
        }
    }
}

/// Takes the report of an export, and tells whether it goes on.
pub fn poll_tiff_stack_export_task(
    dialog: &mut ExportDialog,
    status: &mut Status,
    output_path: &str,
    report: ExportReport,
) -> (running: bool)
    ensures
        running == (report is Running),
        report is Running ==> *final(dialog) == *old(dialog) && *final(status) == *old(status),
        report matches ExportReport::Written(count) ==> {
            &&& text_in(final(dialog).info) == Some(
                "Exported "@ + crate::text::decimal(count as nat) + " frame(s) to "@
                    + output_path@,
            )
            &&& *final(dialog) == (ExportDialog {
                exporting: false,
                error: None,
                info: final(dialog).info,
                ..*old(dialog)
            })
            &&& final(status)@ == (StatusView { last_error: None, ..old(status)@ })
        },
        report.problem() is Some ==> {
            &&& text_in(final(dialog).error) == report.problem()
            &&& *final(dialog) == (ExportDialog {
                exporting: false,
                error: final(dialog).error,
                info: None,
                ..*old(dialog)
            })
            &&& final(status)@ == (StatusView { last_error: report.problem(), ..old(status)@ })
        },
{
    match report {
        ExportReport::Running => true,
        ExportReport::Written(count) => {
            dialog.finish_success(count, output_path);
            status.last_error = None;
            false
        },
        ExportReport::Failed(problem) => {
            dialog.finish_error(problem.clone());
            status.last_error = Some(problem);
            false
        },
        ExportReport::Lost => {
            let problem = "TIFF export task ended unexpectedly".to_owned();
            dialog.finish_error(problem.clone());
            status.last_error = Some(problem);
            false
        },
    }
}

/// Viewers of the main window and of the window that the viewer can be moved
/// to. Of the two, one is in use.
#[derive(Debug)]
pub struct ViewerPlaces<V> {
    pub main: V,
    pub popup: V,
    pub popup_open: bool,
}

impl<V> ViewerPlaces<V> {
    /// The viewer in use.
    pub open spec fn active(self) -> V {
        if self.popup_open {
            self.popup
        } else {
            self.main
        }
    }

    pub fn with_active_viewer(&self) -> (out: &V)
        ensures
            *out == self.active(),
    {
        if self.popup_open {
            &self.popup
        } else {
            &self.main
        }
    }

    pub fn with_active_viewer_mut(&mut self) -> (out: &mut V)
        ensures
            *out == old(self).active(),
            *final(self) == (if old(self).popup_open {
                ViewerPlaces { popup: *final(out), ..*old(self) }
            } else {
                ViewerPlaces { main: *final(out), ..*old(self) }
            }),
    {
        if self.popup_open {
            &mut self.popup
        } else {
            &mut self.main
        }
    }

    /// Moves the viewer to its own window. `empty` takes its place.
    pub fn open_popup_viewer(&mut self, empty: V) -> (opened: bool)
        ensures
            opened == !old(self).popup_open,
            old(self).popup_open ==> *final(self) == *old(self),
            !old(self).popup_open ==> *final(self) == (ViewerPlaces {
                main: empty,
                popup: old(self).main,
                popup_open: true,
            }),
    {
        if self.popup_open {
            return false;
        }
        let mut moved = empty;
        std::mem::swap(&mut moved, &mut self.main);
        self.popup = moved;
        self.popup_open = true;
        true
    }

    /// Moves the viewer back to the main window. `empty` takes its place.
    pub fn close_popup_viewer(&mut self, empty: V) -> (closed: bool)
        ensures
            closed == old(self).popup_open,
            !old(self).popup_open ==> *final(self) == *old(self),
            old(self).popup_open ==> *final(self) == (ViewerPlaces {
                main: old(self).popup,
                popup: empty,
                popup_open: false,
            }),
    {
        if !self.popup_open {
            return false;
        }
        let mut moved = empty;
        std::mem::swap(&mut moved, &mut self.popup);
        self.main = moved;
        self.popup_open = false;
        true
    }
}

/// The viewer in use is the same one when it is moved to its own window and
/// when it is moved back.
pub proof fn moved_viewers_are_kept<V>(places: ViewerPlaces<V>, empty: V)
    ensures
        !places.popup_open ==> (ViewerPlaces { main: empty, popup: places.main, popup_open: true })
            .active() == places.active(),
        places.popup_open ==> (ViewerPlaces { main: places.popup, popup: empty, popup_open: false })
            .active() == places.active(),
{
}

/// Files of decoded events are told by their extensions; all others hold raw
/// words.
pub proof fn decoded_files_are_told_by_their_extension(extension: Seq<char>)
    ensures
        holds_decoded_events("csv"@),
        holds_decoded_events("bin"@),
        holds_decoded_events("npy"@),
        holds_decoded_events("h5"@),
        holds_decoded_events("hdf5"@),
        holds_decoded_events(extension) ==> extension == "csv"@ || extension == "bin"@ || extension
            == "npy"@ || extension == "h5"@ || extension == "hdf5"@,
{
}

/// A replay is opened only where nothing else runs and none is being opened.
pub proof fn replays_are_opened_when_idle(mode: AppMode, opening: bool)
    ensures
        accepts_replay(mode, opening) <==> mode is Idle && !opening,
{
}

/// Without a stamp a path is written to as it is; with one, a file of the
/// stamped name in the folder above is.
pub proof fn stamps_are_added_where_asked(
    path: SplitPath,
    parent: Seq<char>,
    stamp: Seq<char>,
    separator: char,
)
    ensures
        maybe_stamped(path, Some(parent), false, stamp, separator) == path.text(),
        maybe_stamped(path, None, false, stamp, separator) == path.text(),
        maybe_stamped(path, Some(parent), true, stamp, separator) == path_below(
            parent,
            stamped(path.name_text(), stamp),
            separator,
        ),
        maybe_stamped(path, None, true, stamp, separator) == path_below(
            "."@,
            stamped(path.name_text(), stamp),
            separator,
        ),
{
}

/// The status of a camera names its model, and its serial number where it has
/// one, with nothing blank at the ends.
pub proof fn cameras_are_named_by_model_and_serial(camera: CameraIdentity)
    ensures
        camera.serial matches Some(serial) ==> camera.ready_text() == trimmed(
            "Ready: "@ + camera.model@ + " "@ + ("(serial "@ + serial@ + ")"@),
        ),
        camera.serial is None ==> camera.ready_text() == trimmed(
            "Ready: "@ + camera.model@ + " "@ + Seq::empty(),
        ),
{
}

/// The viewer in use is the one in the window of its own while that is open.
pub proof fn open_popups_are_in_use<V>(places: ViewerPlaces<V>)
    ensures
        places.popup_open ==> places.active() == places.popup,
        !places.popup_open ==> places.active() == places.main,
{
}

} // verus!
