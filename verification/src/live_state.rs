//! The settings of a session with a camera, which a replay puts aside and
//! which come back when it is closed.
use crate::session::{CameraIdentity, Status, StatusView};
use crate::settings::{
    at_least, published_settings_are_kept, settled, GlobalSettingsConfig, PendingChanges,
    ReplayDisplaySettings, RuntimeSettings,
};
use vstd::prelude::*;

verus! {

/// What is put aside while a replay is open.
#[derive(Debug)]
pub struct SavedLiveState {
    pub global: GlobalSettingsConfig,
    pub mask_file: String,
    pub camera: Option<CameraIdentity>,
}

/// What a session is set to.
#[derive(Debug)]
pub struct LiveState {
    /// The settings in use.
    pub settings: RuntimeSettings,
    /// The settings as they are saved and published.
    pub global: GlobalSettingsConfig,
    pub mask_file: String,
    pub camera: Option<CameraIdentity>,
    pub pending: PendingChanges,
    pub saved: Option<SavedLiveState>,
}

/// What a session holds, as it is put aside.
pub open spec fn put_aside(state: LiveState) -> SavedLiveState {
    SavedLiveState {
        global: state.settings.published(),
        mask_file: state.mask_file,
        camera: state.camera,
    }
}

/// A session whose replay is open.
pub open spec fn in_replay(
    shown: ReplayDisplaySettings,
    camera: CameraIdentity,
    saved: SavedLiveState,
) -> LiveState {
    LiveState {
        settings: settled(shown.global),
        global: settled(shown.global).published(),
        mask_file: shown.mask_file,
        camera: Some(camera),
        pending: PendingChanges { config_dirty: false, acq_dirty: false },
        saved: Some(saved),
    }
}

/// A session whose replay was closed.
pub open spec fn out_of_replay(state: LiveState) -> LiveState {
    match state.saved {
        Some(saved) => LiveState {
            settings: settled(saved.global),
            global: settled(saved.global).published(),
            mask_file: saved.mask_file,
            camera: saved.camera,
            saved: None,
            ..state
        },
        None => state,
    }
}

fn copied_camera(camera: &Option<CameraIdentity>) -> (out: Option<CameraIdentity>)
    ensures
        out == *camera,
{
    match camera {
        Some(found) => Some(
            CameraIdentity {
                model: found.model.clone(),
                serial: match &found.serial {
                    Some(serial) => Some(serial.clone()),
                    None => None,
                },
            },
        ),
        None => None,
    }
}

impl LiveState {
    /// Publishes the settings in use, and gives what is put aside for a
    /// replay.
    pub fn save(&mut self) -> (out: SavedLiveState)
        ensures
            out == put_aside(*old(self)),
            *final(self) == (LiveState {
                global: old(self).settings.published(),
                ..*old(self)
            }),
    {
        self.global = self.settings.sync_config_global_from_runtime();
        SavedLiveState {
            global: self.global,
            mask_file: self.mask_file.clone(),
            camera: copied_camera(&self.camera),
        }
    }

    /// Takes over the settings that are shown for a replay. Gives the line
    /// that tells why the usual ones are shown.
    pub fn finish_opened_replay(
        &mut self,
        shown: ReplayDisplaySettings,
        camera: CameraIdentity,
        saved: SavedLiveState,
    ) -> (notice: Option<String>)
        ensures
            *final(self) == in_replay(shown, camera, saved),
            notice == shown.notice,
    {
        self.global = self.settings.apply_global_config(&shown.global);
        self.mask_file = shown.mask_file;
        self.camera = Some(camera);
        self.pending.config_dirty = false;
        self.pending.acq_dirty = false;
        self.saved = Some(saved);
        shown.notice
    }

    /// Takes back what was put aside for a replay.
    pub fn restore_saved_live_state(&mut self)
        ensures
            *final(self) == out_of_replay(*old(self)),
    {
        match self.saved.take() {
            Some(saved) => {
                self.mask_file = saved.mask_file;
                self.camera = saved.camera;
                self.global = self.settings.apply_global_config(&saved.global);
            },
            None => {},
        }
    }

    /// The camera runs, with the settings as they are.
    pub fn pipeline_started(&mut self, camera: CameraIdentity)
        ensures
            *final(self) == (LiveState {
                global: old(self).settings.published(),
                camera: Some(camera),
                pending: PendingChanges { config_dirty: false, acq_dirty: false },
                ..*old(self)
            }),
    {
        self.global = self.settings.sync_config_global_from_runtime();
        self.camera = Some(camera);
        self.pending.config_dirty = false;
        self.pending.acq_dirty = false;
    }
}

/// A replay leaves no trace in the settings: whatever is shown for it, the
/// session that is left when it is closed has the settings, the mask and the
/// camera that it had before, and publishes the same.
pub proof fn closed_replays_leave_no_trace(
    before: LiveState,
    asked: GlobalSettingsConfig,
    shown: ReplayDisplaySettings,
    camera: CameraIdentity,
)
    requires
        before.settings == settled(asked),
        at_least(asked.event_store_budget_mib, 1) * 1_048_576 <= usize::MAX,
    ensures
        ({
            let after = out_of_replay(in_replay(shown, camera, put_aside(before)));
            &&& after.settings == before.settings
            &&& after.global == before.settings.published()
            &&& after.mask_file == before.mask_file
            &&& after.camera == before.camera
            &&& after.saved is None
        }),
{
    published_settings_are_kept(asked);
}

/// Why a session could not be started or moved.
#[derive(Debug)]
pub enum StartFailure {
    OutputDirectory { directory: String, error: String },
    OpenCamera(String),
    OpenReplay(String),
    StartPipeline(String),
    Seek(String),
    SeekPipeline(String),
    PathMissing,
    MetadataMissing,
}

impl StartFailure {
    pub open spec fn text(self) -> Seq<char> {
        match self {
            StartFailure::OutputDirectory { directory, error } =>
                "failed creating output directory "@ + directory@ + ": "@ + error@,
            StartFailure::OpenCamera(error) => "open camera failed: "@ + error@,
            StartFailure::OpenReplay(error) => "open replay file failed: "@ + error@,
            StartFailure::StartPipeline(error) => "pipeline start failed: "@ + error@,
            StartFailure::Seek(error) => "seek failed: "@ + error@,
            StartFailure::SeekPipeline(error) => "seek pipeline start failed: "@ + error@,
            StartFailure::PathMissing => "replay path is missing"@,
            StartFailure::MetadataMissing => "replay file metadata is missing"@,
        }
    }

    pub fn line(&self) -> (out: String)
        ensures
            out@ == self.text(),
    {
        match self {
            StartFailure::OutputDirectory { directory, error } => {
                let mut out = "failed creating output directory ".to_owned();
                out.append(directory.as_str());
                out.append(": ");
                out.append(error.as_str());
                out
            },
            StartFailure::OpenCamera(error) => with_error("open camera failed: ", error),
            StartFailure::OpenReplay(error) => with_error("open replay file failed: ", error),
            StartFailure::StartPipeline(error) => with_error("pipeline start failed: ", error),
            StartFailure::Seek(error) => with_error("seek failed: ", error),
            StartFailure::SeekPipeline(error) => with_error("seek pipeline start failed: ", error),
            StartFailure::PathMissing => "replay path is missing".to_owned(),
            StartFailure::MetadataMissing => "replay file metadata is missing".to_owned(),
        }
    }
}

fn with_error(head: &str, error: &String) -> (out: String)
    ensures
        out@ == head@ + error@,
{
    let mut out = head.to_owned();
    out.append(error.as_str());
    out
}

/// Shows why a session could not be started or moved.
pub fn start_failed(status: &mut Status, failure: &StartFailure)
    ensures
        final(status)@ == (StatusView { last_error: Some(failure.text()), ..old(status)@ }),
{
    status.last_error = Some(failure.line());
}

/// Shows that frames cannot be sent to a tool any more, which is then
/// disconnected.
pub fn bridge_failed(status: &mut Status, tool: &str, error: &str)
    ensures
        final(status)@ == (StatusView {
            last_error: Some(tool@ + " bridge failed: "@ + error@),
            ..old(status)@
        }),
{
    let mut text = tool.to_owned();
    text.append(" bridge failed: ");
    text.append(error);
    status.last_error = Some(text);
}

/// While a replay is open the session shows its settings and its camera, has
/// nothing left to apply, and keeps what was there before.
pub proof fn replays_show_their_own_settings(
    before: LiveState,
    shown: ReplayDisplaySettings,
    camera: CameraIdentity,
)
    ensures
        ({
            let during = in_replay(shown, camera, put_aside(before));
            &&& during.settings == settled(shown.global)
            &&& during.mask_file == shown.mask_file
            &&& during.camera == Some(camera)
            &&& !during.pending.config_dirty
            &&& !during.pending.acq_dirty
            &&& during.saved == Some(put_aside(before))
            &&& put_aside(before).mask_file == before.mask_file
            &&& put_aside(before).camera == before.camera
        }),
{
}

} // verus!
