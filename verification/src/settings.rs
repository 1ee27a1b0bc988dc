//! The settings that the application shares with the pipeline and with
//! plugins, their limits, and when they can be changed.
use crate::arithmetic::{is_negative, quotient, quotient_of};
use crate::binary32::{from_whole, whole_32};
use crate::binary64::{Real32, Real64, INFINITY_BITS, SIGN_WEIGHT};
use crate::replay::{is_live, AppMode, ReplayFileInfo};
use crate::replay_time::{derived_replay_preview_interval_ms, replay_interval};
use crate::arithmetic::{whole_numbers_are_divided_exactly, whole_parts};
use crate::rounding::{
    divide, half_up, half_up_of_moved_bits, moved_divisor, rounded, rounding_exists,
    rounding_is_unique, rounds_to, short_number_stays, to_whole, Scaled,
};
use crate::seconds::{parts_of, pattern};
use crate::single;
use crate::text::{decimal, push_decimal};
use crate::whole_text::{push_tenths, push_tenths_32, tenths_text, tenths_text_32};
use vstd::arithmetic::div_mod::lemma_fundamental_div_mod_converse;
use vstd::arithmetic::power2::{lemma2_to64_rest, lemma_pow2_strictly_increases, pow2};
use vstd::prelude::*;

verus! {

/// The colours of the interface.
#[derive(Debug, Clone, Copy, PartialEq, Eq, Structural)]
pub enum UiThemePreference {
    Dark,
    Light,
}

impl UiThemePreference {
    pub fn from_dark_mode(dark_mode: bool) -> (out: Self)
        ensures
            out == (if dark_mode {
                UiThemePreference::Dark
            } else {
                UiThemePreference::Light
            }),
    {
        if dark_mode {
            UiThemePreference::Dark
        } else {
            UiThemePreference::Light
        }
    }

    pub fn is_dark(self) -> (out: bool)
        ensures
            out == (self == UiThemePreference::Dark),
    {
        matches!(self, UiThemePreference::Dark)
    }
}

/// The bytes of a mebibyte.
pub const EVENT_STORE_MEBIBYTE: usize = 1_048_576;

/// The pattern of one.
pub const ONE_BITS: u64 = 0x3ff0_0000_0000_0000;

/// A number of mebibytes in bytes, or the largest number of bytes there is.
pub open spec fn mebibytes(mib: nat) -> nat {
    if mib * 1_048_576 > usize::MAX {
        usize::MAX as nat
    } else {
        mib * 1_048_576
    }
}

pub fn mib_to_bytes(mib: u64) -> (out: usize)
    ensures
        out == mebibytes(mib as nat),
{
    let bytes: u64 = match mib.checked_mul(1_048_576) {
        Some(bytes) => bytes,
        None => u64::MAX,
    };
    if bytes > usize::MAX as u64 {
        usize::MAX
    } else {
        bytes as usize
    }
}

/// The settings as they are saved, published and loaded.
#[derive(Debug, Clone, Copy)]
pub struct GlobalSettingsConfig {
    pub nm_per_pixel: Real64,
    pub sensor_width: u16,
    pub sensor_height: u16,
    pub acq_time_ms: u64,
    pub event_store_budget_mib: u64,
    pub preview_interval_ms: u64,
    pub point_cloud_interval_ms: u64,
    pub disk_writer_buffer_mib: u64,
}

impl GlobalSettingsConfig {
    /// Whether two settings are equal as values.
    pub open spec fn same(self, other: GlobalSettingsConfig) -> bool {
        &&& self.nm_per_pixel.same(other.nm_per_pixel)
        &&& self.sensor_width == other.sensor_width
        &&& self.sensor_height == other.sensor_height
        &&& self.acq_time_ms == other.acq_time_ms
        &&& self.event_store_budget_mib == other.event_store_budget_mib
        &&& self.preview_interval_ms == other.preview_interval_ms
        &&& self.point_cloud_interval_ms == other.point_cloud_interval_ms
        &&& self.disk_writer_buffer_mib == other.disk_writer_buffer_mib
    }

    pub fn equals(&self, other: &GlobalSettingsConfig) -> (out: bool)
        ensures
            out == self.same(*other),
    {
        self.nm_per_pixel.equals(other.nm_per_pixel) && self.sensor_width == other.sensor_width
            && self.sensor_height == other.sensor_height && self.acq_time_ms == other.acq_time_ms
            && self.event_store_budget_mib == other.event_store_budget_mib
            && self.preview_interval_ms == other.preview_interval_ms
            && self.point_cloud_interval_ms == other.point_cloud_interval_ms
            && self.disk_writer_buffer_mib == other.disk_writer_buffer_mib
    }
}

/// The settings in use.
#[derive(Debug, Clone, Copy)]
pub struct RuntimeSettings {
    pub nm_per_pixel: Real64,
    pub sensor_width: u16,
    pub sensor_height: u16,
    pub acq_time_ms: u64,
    pub preview_interval_ms: u64,
    pub point_cloud_interval_ms: u64,
    pub disk_writer_buffer_mib: u64,
    pub event_store_budget_bytes: usize,
}

pub open spec fn at_least(n: u64, least: u64) -> u64 {
    if n < least {
        least
    } else {
        n
    }
}

fn raised(n: u64, least: u64) -> (out: u64)
    ensures
        out == at_least(n, least),
{
    if n < least {
        least
    } else {
        n
    }
}

pub open spec fn at_least_one_pixel(n: u16) -> u16 {
    if n == 0 {
        1
    } else {
        n
    }
}

/// The settings that a configuration asks for, within their limits.
pub open spec fn settled(global: GlobalSettingsConfig) -> RuntimeSettings {
    RuntimeSettings {
        nm_per_pixel: global.nm_per_pixel.larger_of(Real64 { bits: ONE_BITS }),
        sensor_width: at_least_one_pixel(global.sensor_width),
        sensor_height: at_least_one_pixel(global.sensor_height),
        acq_time_ms: at_least(global.acq_time_ms, 1),
        preview_interval_ms: at_least(global.preview_interval_ms, 10),
        point_cloud_interval_ms: at_least(global.point_cloud_interval_ms, 20),
        disk_writer_buffer_mib: at_least(global.disk_writer_buffer_mib, 1),
        event_store_budget_bytes: mebibytes(
            at_least(global.event_store_budget_mib, 1) as nat,
        ) as usize,
    }
}

impl RuntimeSettings {
    /// The event history's budget in mebibytes, at least one.
    pub open spec fn budget_mib(self) -> nat {
        let mib = self.event_store_budget_bytes as nat / 1_048_576;
        if mib == 0 {
            1
        } else {
            mib
        }
    }

    pub fn event_store_budget_mib(&self) -> (out: u64)
        ensures
            out == self.budget_mib(),
    {
        let mib: usize = self.event_store_budget_bytes / EVENT_STORE_MEBIBYTE;
        if mib == 0 {
            1
        } else {
            mib as u64
        }
    }

    /// The settings as a configuration.
    pub open spec fn published(self) -> GlobalSettingsConfig {
        GlobalSettingsConfig {
            nm_per_pixel: self.nm_per_pixel,
            sensor_width: self.sensor_width,
            sensor_height: self.sensor_height,
            acq_time_ms: self.acq_time_ms,
            event_store_budget_mib: self.budget_mib() as u64,
            preview_interval_ms: self.preview_interval_ms,
            point_cloud_interval_ms: self.point_cloud_interval_ms,
            disk_writer_buffer_mib: self.disk_writer_buffer_mib,
        }
    }

    pub fn sync_config_global_from_runtime(&self) -> (out: GlobalSettingsConfig)
        ensures
            out == self.published(),
    {
        GlobalSettingsConfig {
            nm_per_pixel: self.nm_per_pixel,
            sensor_width: self.sensor_width,
            sensor_height: self.sensor_height,
            acq_time_ms: self.acq_time_ms,
            event_store_budget_mib: self.event_store_budget_mib(),
            preview_interval_ms: self.preview_interval_ms,
            point_cloud_interval_ms: self.point_cloud_interval_ms,
            disk_writer_buffer_mib: self.disk_writer_buffer_mib,
        }
    }

    /// Takes a configuration over, within the limits, and gives what is then
    /// published.
    pub fn apply_global_config(&mut self, global: &GlobalSettingsConfig) -> (out:
        GlobalSettingsConfig)
        ensures
            *final(self) == settled(*global),
            out == settled(*global).published(),
    {
        self.nm_per_pixel = global.nm_per_pixel.larger(Real64 { bits: ONE_BITS });
        self.sensor_width = if global.sensor_width == 0 {
            1
        } else {
            global.sensor_width
        };
        self.sensor_height = if global.sensor_height == 0 {
            1
        } else {
            global.sensor_height
        };
        self.acq_time_ms = raised(global.acq_time_ms, 1);
        self.preview_interval_ms = raised(global.preview_interval_ms, 10);
        self.point_cloud_interval_ms = raised(global.point_cloud_interval_ms, 20);
        self.disk_writer_buffer_mib = raised(global.disk_writer_buffer_mib, 1);
        self.event_store_budget_bytes = mib_to_bytes(raised(global.event_store_budget_mib, 1));
        self.sync_config_global_from_runtime()
    }

    /// The acquisition time that frames are cut with: what the pipeline holds
    /// while the camera runs, else the setting.
    pub fn published_acq_time_ms(&self, mode: AppMode, pipeline_acq_time_us: Option<u64>) -> (out:
        u64)
        ensures
            out == (if is_live(mode) && pipeline_acq_time_us is Some {
                pipeline_acq_time_us->0 / 1_000
            } else {
                self.acq_time_ms
            }),
    {
        if matches!(mode, AppMode::Previewing | AppMode::Recording) {
            match pipeline_acq_time_us {
                Some(us) => us / 1_000,
                None => self.acq_time_ms,
            }
        } else {
            self.acq_time_ms
        }
    }

    /// The milliseconds between two preview frames. A replay follows its
    /// speed.
    pub fn effective_preview_interval_ms(&self, mode: AppMode, replay_speed: Real32) -> (out: u64)
        ensures
            out == (if mode == AppMode::Replaying {
                replay_interval(self.acq_time_ms as nat, replay_speed)
            } else {
                self.preview_interval_ms as nat
            }),
    {
        if mode == AppMode::Replaying {
            derived_replay_preview_interval_ms(self.acq_time_ms, replay_speed)
        } else {
            self.preview_interval_ms
        }
    }
}

/// Settings in use are within their limits, and what is published of them is
/// taken over again unchanged, where the event history's budget can be held
/// in bytes.
pub proof fn published_settings_are_kept(global: GlobalSettingsConfig)
    requires
        at_least(global.event_store_budget_mib, 1) * 1_048_576 <= usize::MAX,
    ensures
        settled(settled(global).published()) == settled(global),
        settled(global).sensor_width >= 1,
        settled(global).sensor_height >= 1,
        settled(global).acq_time_ms >= 1,
        settled(global).preview_interval_ms >= 10,
        settled(global).point_cloud_interval_ms >= 20,
        settled(global).disk_writer_buffer_mib >= 1,
        settled(global).event_store_budget_bytes >= EVENT_STORE_MEBIBYTE,
        (Real64 { bits: ONE_BITS }).le(settled(global).nm_per_pixel),
{
    let mib = at_least(global.event_store_budget_mib, 1) as nat;
    assert((mib * 1_048_576) / 1_048_576 == mib) by (nonlinear_arith);
}

/// A thousand, divided by a positive whole number in binary64: a significand
/// and an exponent.
pub open spec fn rate_of(interval_ms: nat) -> (nat, int) {
    let n = rounded(interval_ms, 1);
    let q = rounded(1_000, n.0);
    (q.0, q.1 - n.1)
}

/// The rate in hertz that belongs to an interval, which counts as one
/// millisecond where it is none.
pub fn interval_ms_to_hz(interval_ms: u64) -> (out: Real64)
    ensures
        out.bits == pattern(
            rate_of(at_least(interval_ms, 1) as nat).0,
            rate_of(at_least(interval_ms, 1) as nat).1,
        ),
{
    let n = divide(raised(interval_ms, 1), 1);
    let q = divide(1_000, n.m);
    let exponent: i32 = q.e - n.e + 1074;
    Real64 { bits: exponent as u64 * 0x10_0000_0000_0000 + q.m }
}

/// The rate at which a replay is shown.
pub open spec fn display_rate_text(interval_ms: u64) -> Seq<char> {
    let rate = rate_of(at_least(interval_ms, 1) as nat);
    "Effective display rate: "@ + tenths_text(Real64 { bits: pattern(rate.0, rate.1) as u64 })
        + " Hz (auto from speed \u{d7} acq time)."@
}

pub fn display_rate_line(interval_ms: u64) -> (out: String)
    ensures
        out@ == display_rate_text(interval_ms),
{
    let mut out = "Effective display rate: ".to_owned();
    push_tenths(&mut out, interval_ms_to_hz(interval_ms));
    out.append(" Hz (auto from speed \u{d7} acq time).");
    out
}

/// How much of the history of events is kept.
pub open spec fn retained_text(bytes: nat, frames: nat) -> Seq<char> {
    let mebibytes = single::quotient_of(whole_32(bytes), whole_32(EVENT_STORE_MEBIBYTE as nat));
    "Retained "@ + tenths_text_32(mebibytes) + " MiB across "@ + decimal(frames) + " frame(s)."@
}

pub fn retained_line(bytes: usize, frames: usize) -> (out: String)
    ensures
        out@ == retained_text(bytes as nat, frames as nat),
{
    let mut out = "Retained ".to_owned();
    let unit = from_whole(EVENT_STORE_MEBIBYTE as u64);
    push_tenths_32(&mut out, single::quotient(from_whole(bytes as u64), unit));
    out.append(" MiB across ");
    push_decimal(&mut out, frames as u64);
    out.append(" frame(s).");
    out
}

/// The pattern of a thousand.
pub const THOUSAND_BITS_64: u64 = 0x408f_4000_0000_0000;

/// The interval that belongs to a rate within limits: a whole number of
/// milliseconds, at least one.
pub open spec fn interval_of(hz: Real64, low: Real64, high: Real64) -> nat {
    let wanted = quotient_of(Real64 { bits: THOUSAND_BITS_64 }, hz.within(low, high));
    let rounded = half_up(parts_of(wanted).0, parts_of(wanted).1);
    if wanted.is_nan() || is_negative(wanted) {
        1
    } else if !wanted.is_finite() || rounded > u64::MAX {
        u64::MAX as nat
    } else if rounded < 1 {
        1
    } else {
        rounded
    }
}

pub fn hz_to_interval_ms(hz: Real64, low: Real64, high: Real64) -> (out: u64)
    requires
        low.le(high),
    ensures
        out == interval_of(hz, low, high),
{
    let wanted = quotient(Real64 { bits: THOUSAND_BITS_64 }, hz.clamped(low, high));
    if wanted.nan() || wanted.bits >= SIGN_WEIGHT {
        return 1;
    }
    if wanted.bits == INFINITY_BITS {
        return u64::MAX;
    }
    if wanted.bits < 0x10_0000_0000_0000 {
        proof {
            small_rounds_to_zero(parts_of(wanted).0, parts_of(wanted).1);
        }
        return 1;
    }
    let exponent: u64 = wanted.bits / 0x10_0000_0000_0000;
    let fraction: u64 = wanted.bits % 0x10_0000_0000_0000;
    let value = Scaled { m: fraction + 0x10_0000_0000_0000, e: exponent as i32 - 1075 };
    raised(to_whole(value), 1)
}

proof fn small_rounds_to_zero(m: nat, e: int)
    requires
        m < 0x10_0000_0000_0000,
        e == -1074,
    ensures
        half_up(m, e) == 0,
{
    let p = pow2(1074) as int;
    lemma2_to64_rest();
    lemma_pow2_strictly_increases(64, 1074);
    lemma_fundamental_div_mod_converse(2 * m + p, 2 * p, 0, 2 * m + p);
}

/// Whether settings cannot be changed: in a replay, and in a recording that
/// locks them.
pub fn settings_are_locked(mode: AppMode, lock_settings_while_recording: bool) -> (out: bool)
    ensures
        out == (mode == AppMode::Replaying || (mode == AppMode::Recording
            && lock_settings_while_recording)),
{
    match mode {
        AppMode::Replaying => true,
        AppMode::Recording => lock_settings_while_recording,
        _ => false,
    }
}

/// The line that tells what edits of the settings do.
pub open spec fn settings_hint_text(mode: AppMode, locked: bool) -> Seq<char> {
    match mode {
        AppMode::Recording => if locked {
            "Recording: settings are locked."@
        } else {
            "Recording: edits stay local until you click Apply Settings."@
        },
        AppMode::Previewing => "Previewing: edits stay local until you click Apply Settings."@,
        AppMode::Replaying =>
            "Replay mode: camera settings are shown as read-only reference data."@,
        AppMode::Idle => "Idle: edits change the local config for the next recording."@,
    }
}

pub fn settings_hint(mode: AppMode, settings_locked: bool) -> (out: &'static str)
    ensures
        out@ == settings_hint_text(mode, settings_locked),
{
    match mode {
        AppMode::Recording => if settings_locked {
            "Recording: settings are locked."
        } else {
            "Recording: edits stay local until you click Apply Settings."
        },
        AppMode::Previewing => "Previewing: edits stay local until you click Apply Settings.",
        AppMode::Replaying => "Replay mode: camera settings are shown as read-only reference data.",
        AppMode::Idle => "Idle: edits change the local config for the next recording.",
    }
}

/// What the menus offer.
#[derive(Debug, Clone, Copy, PartialEq, Eq, Structural)]
pub struct MenuItems {
    pub edit_output: bool,
    pub open_replay: bool,
    pub export_stack: bool,
    pub save_config: bool,
    pub load_config: bool,
    pub probe: bool,
    pub preview: bool,
    pub record: bool,
    pub stop: bool,
    pub apply_settings: bool,
    pub play_pause: bool,
    pub edit_sensor: bool,
    pub edit_acq_time: bool,
    pub edit_disk_buffer: bool,
}

/// What decides on the menus besides the mode.
#[derive(Debug, Clone, Copy, PartialEq, Eq, Structural)]
pub struct MenuState {
    pub settings_locked: bool,
    pub camera_known: bool,
    pub replay_known: bool,
    pub exporting: bool,
    pub replay_finished: bool,
}

pub open spec fn menu(mode: AppMode, state: MenuState) -> MenuItems {
    MenuItems {
        edit_output: mode == AppMode::Idle || mode == AppMode::Previewing,
        open_replay: mode == AppMode::Idle,
        export_stack: mode == AppMode::Replaying && state.replay_known && !state.exporting,
        save_config: mode != AppMode::Replaying,
        load_config: mode == AppMode::Idle || mode == AppMode::Previewing,
        probe: mode == AppMode::Idle,
        preview: mode == AppMode::Idle && state.camera_known,
        record: mode == AppMode::Idle || mode == AppMode::Previewing,
        stop: mode != AppMode::Idle,
        apply_settings: is_live(mode) && !state.settings_locked,
        play_pause: mode == AppMode::Replaying && !state.replay_finished,
        edit_sensor: mode == AppMode::Idle,
        edit_acq_time: !(mode == AppMode::Recording && state.settings_locked),
        edit_disk_buffer: mode == AppMode::Idle,
    }
}

pub fn menu_items(mode: AppMode, state: &MenuState) -> (out: MenuItems)
    ensures
        out == menu(mode, *state),
{
    let idle: bool = mode == AppMode::Idle;
    let previewing: bool = mode == AppMode::Previewing;
    let recording: bool = mode == AppMode::Recording;
    let replaying: bool = mode == AppMode::Replaying;
    MenuItems {
        edit_output: idle || previewing,
        open_replay: idle,
        export_stack: replaying && state.replay_known && !state.exporting,
        save_config: !replaying,
        load_config: idle || previewing,
        probe: idle,
        preview: idle && state.camera_known,
        record: idle || previewing,
        stop: !idle,
        apply_settings: (previewing || recording) && !state.settings_locked,
        play_pause: replaying && !state.replay_finished,
        edit_sensor: idle,
        edit_acq_time: !(recording && state.settings_locked),
        edit_disk_buffer: idle,
    }
}

/// What a replay's pipeline is set up with: the frame that is read, and the
/// shared settings.
#[derive(Debug, Clone, Copy)]
pub struct ReplayPipelineConfig {
    pub roi_width: u16,
    pub roi_height: u16,
    pub global: GlobalSettingsConfig,
}

/// The settings of a replay file on top of the usual ones.
pub open spec fn replay_globals(
    defaults: GlobalSettingsConfig,
    info: ReplayFileInfo,
    pixel_pitch_nm: Option<Real64>,
) -> GlobalSettingsConfig {
    GlobalSettingsConfig {
        sensor_width: info.width,
        sensor_height: info.height,
        nm_per_pixel: match pixel_pitch_nm {
            Some(pitch) => pitch,
            None => defaults.nm_per_pixel,
        },
        ..defaults
    }
}

fn with_file_settings(
    defaults: &GlobalSettingsConfig,
    info: &ReplayFileInfo,
    pixel_pitch_nm: Option<Real64>,
) -> (out: GlobalSettingsConfig)
    ensures
        out == replay_globals(*defaults, *info, pixel_pitch_nm),
{
    GlobalSettingsConfig {
        sensor_width: info.width,
        sensor_height: info.height,
        nm_per_pixel: match pixel_pitch_nm {
            Some(pitch) => pitch,
            None => defaults.nm_per_pixel,
        },
        ..*defaults
    }
}

pub open spec fn replay_pipeline(
    defaults: GlobalSettingsConfig,
    info: ReplayFileInfo,
    pixel_pitch_nm: Option<Real64>,
    acq_time_ms: u64,
) -> ReplayPipelineConfig {
    ReplayPipelineConfig {
        roi_width: info.width,
        roi_height: info.height,
        global: GlobalSettingsConfig {
            acq_time_ms: at_least(acq_time_ms, 1),
            ..replay_globals(defaults, info, pixel_pitch_nm)
        },
    }
}

pub fn replay_pipeline_config(
    defaults: &GlobalSettingsConfig,
    info: &ReplayFileInfo,
    pixel_pitch_nm: Option<Real64>,
    acq_time_ms: u64,
) -> (out: ReplayPipelineConfig)
    ensures
        out == replay_pipeline(*defaults, *info, pixel_pitch_nm, acq_time_ms),
{
    let mut global = with_file_settings(defaults, info, pixel_pitch_nm);
    global.acq_time_ms = raised(acq_time_ms, 1);
    ReplayPipelineConfig { roi_width: info.width, roi_height: info.height, global }
}

/// What was found beside a replay file.
#[derive(Debug)]
pub enum ReplaySidecar {
    /// The name of the settings file cannot be told.
    NoName,
    Missing,
    Loaded { global: GlobalSettingsConfig, mask_file: Option<String> },
    Failed { path: String, error: String },
}

/// The settings that are shown for a replay.
#[derive(Debug)]
pub struct ReplayDisplaySettings {
    pub global: GlobalSettingsConfig,
    pub mask_file: String,
    pub notice: Option<String>,
}

impl ReplaySidecar {
    /// The line that tells why the usual settings are shown.
    pub open spec fn notice_text(self) -> Option<Seq<char>> {
        match self {
            ReplaySidecar::NoName => Some(
                "Replay sidecar path could not be derived; showing default settings."@,
            ),
            ReplaySidecar::Missing => Some(
                "No companion .toml sidecar found; showing default settings."@,
            ),
            ReplaySidecar::Loaded { .. } => None,
            ReplaySidecar::Failed { path, error } => Some(
                "Replay sidecar "@ + path@ + " could not be loaded: "@ + error@,
            ),
        }
    }

    /// The shared settings that are shown. A settings file that leaves them
    /// as usual gives way to what the replay file says.
    pub open spec fn shown_globals(
        self,
        defaults: GlobalSettingsConfig,
        info: ReplayFileInfo,
        pixel_pitch_nm: Option<Real64>,
        acq_time_ms: u64,
    ) -> GlobalSettingsConfig {
        match self {
            ReplaySidecar::Loaded { global, .. } => if global.same(defaults) {
                replay_globals(global, info, pixel_pitch_nm)
            } else {
                global
            },
            _ => replay_pipeline(defaults, info, pixel_pitch_nm, acq_time_ms).global,
        }
    }
}

pub fn load_replay_display_settings(
    sidecar: ReplaySidecar,
    defaults: &GlobalSettingsConfig,
    info: &ReplayFileInfo,
    pixel_pitch_nm: Option<Real64>,
    acq_time_ms: u64,
) -> (out: ReplayDisplaySettings)
    ensures
        out.global == sidecar.shown_globals(*defaults, *info, pixel_pitch_nm, acq_time_ms),
        out.mask_file@ == (match sidecar {
            ReplaySidecar::Loaded { mask_file: Some(file), .. } => file@,
            _ => ""@,
        }),
        out.notice is Some <==> sidecar.notice_text() is Some,
        out.notice matches Some(notice) ==> notice@ == sidecar.notice_text()->0,
{
    proof {
        reveal_strlit("");
    }
    let ghost wanted = sidecar.notice_text();
    match sidecar {
        ReplaySidecar::Loaded { global, mask_file } => {
            let shown = if global.equals(defaults) {
                with_file_settings(&global, info, pixel_pitch_nm)
            } else {
                global
            };
            let mask_file = match mask_file {
                Some(file) => file,
                None => String::new(),
            };
            ReplayDisplaySettings { global: shown, mask_file, notice: None }
        },
        ReplaySidecar::NoName => ReplayDisplaySettings {
            global: replay_pipeline_config(defaults, info, pixel_pitch_nm, acq_time_ms).global,
            mask_file: String::new(),
            notice: Some(
                "Replay sidecar path could not be derived; showing default settings.".to_owned(),
            ),
        },
        ReplaySidecar::Missing => ReplayDisplaySettings {
            global: replay_pipeline_config(defaults, info, pixel_pitch_nm, acq_time_ms).global,
            mask_file: String::new(),
            notice: Some("No companion .toml sidecar found; showing default settings.".to_owned()),
        },
        ReplaySidecar::Failed { path, error } => {
            let mut notice = "Replay sidecar ".to_owned();
            notice.append(path.as_str());
            notice.append(" could not be loaded: ");
            notice.append(error.as_str());
            assert(notice@ =~= wanted->0);
            ReplayDisplaySettings {
                global: replay_pipeline_config(defaults, info, pixel_pitch_nm, acq_time_ms).global,
                mask_file: String::new(),
                notice: Some(notice),
            }
        },
    }
}

/// What is left to do when changed settings are applied to the camera.
#[derive(Debug, Clone, Copy, PartialEq, Eq, Structural)]
pub enum ApplyStep {
    /// Nothing runs that settings could be applied to.
    NoCamera,
    /// The settings were refused, or could not be sent.
    Refused,
    /// The acquisition time is written as well.
    Applied { write_acq_time: bool },
}

/// What became of settings that were to be sent.
#[derive(Debug)]
pub enum SendOutcome {
    Sent,
    Invalid(String),
    Unsent(String),
}

impl SendOutcome {
    /// Why settings were not sent.
    pub open spec fn text(self) -> Seq<char> {
        match self {
            SendOutcome::Invalid(err) => "settings invalid: "@ + err@,
            SendOutcome::Unsent(err) => "failed sending runtime settings: "@ + err@,
            SendOutcome::Sent => Seq::empty(),
        }
    }
}

/// Settings that were edited and not applied yet.
#[derive(Debug, Clone, Copy, PartialEq, Eq, Structural)]
pub struct PendingChanges {
    pub config_dirty: bool,
    pub acq_dirty: bool,
}

impl PendingChanges {
    /// The line that lists them.
    pub open spec fn text(self) -> Option<Seq<char>> {
        if self.config_dirty && self.acq_dirty {
            Some("Apply pending changes: settings, acquisition timing"@)
        } else if self.config_dirty {
            Some("Apply pending changes: settings"@)
        } else if self.acq_dirty {
            Some("Apply pending changes: acquisition timing"@)
        } else {
            None
        }
    }

    pub fn label(&self) -> (out: Option<&'static str>)
        ensures
            out is Some <==> self.text() is Some,
            out matches Some(text) ==> text@ == self.text()->0,
    {
        if self.config_dirty && self.acq_dirty {
            Some("Apply pending changes: settings, acquisition timing")
        } else if self.config_dirty {
            Some("Apply pending changes: settings")
        } else if self.acq_dirty {
            Some("Apply pending changes: acquisition timing")
        } else {
            None
        }
    }

    /// Takes note of detected pixels that were copied into the mask. Outside of
    /// a replay they are unsent where a camera runs.
    pub fn mask_copied(&mut self, changed: bool, mode: AppMode, camera_running: bool)
        ensures
            *final(self) == (PendingChanges {
                config_dirty: if changed && mode != AppMode::Replaying {
                    camera_running
                } else {
                    old(self).config_dirty
                },
                ..*old(self)
            }),
    {
        if changed && mode != AppMode::Replaying {
            self.config_dirty = camera_running;
        }
    }

    /// Takes note of what became of the settings. They are sent only where
    /// they were edited: `outcome` is read in that case alone.
    pub fn apply_runtime_changes(
        &mut self,
        camera_running: bool,
        outcome: SendOutcome,
        last_error: &mut Option<String>,
    ) -> (out: ApplyStep)
        ensures
            !camera_running ==> out == ApplyStep::NoCamera && *final(self) == *old(self)
                && *final(last_error) == *old(last_error),
            camera_running && old(self).config_dirty && !(outcome is Sent) ==> out
                == ApplyStep::Refused && *final(self) == *old(self) && final(last_error).is_some()
                && final(last_error).unwrap()@ == outcome.text(),
            camera_running && (!old(self).config_dirty || outcome is Sent) ==> out
                == (ApplyStep::Applied { write_acq_time: old(self).acq_dirty }) && *final(self)
                == (PendingChanges { config_dirty: false, acq_dirty: false }) && *final(last_error)
                == None::<String>,
    {
        if !camera_running {
            return ApplyStep::NoCamera;
        }
        if self.config_dirty {
            match outcome {
                SendOutcome::Invalid(err) => {
                    let mut text = "settings invalid: ".to_owned();
                    text.append(err.as_str());
                    *last_error = Some(text);
                    return ApplyStep::Refused;
                },
                SendOutcome::Unsent(err) => {
                    let mut text = "failed sending runtime settings: ".to_owned();
                    text.append(err.as_str());
                    *last_error = Some(text);
                    return ApplyStep::Refused;
                },
                SendOutcome::Sent => {},
            }
            self.config_dirty = false;
        }
        let write_acq_time: bool = self.acq_dirty;
        self.acq_dirty = false;
        *last_error = None;
        ApplyStep::Applied { write_acq_time }
    }
}

// ---------------------------------------------------------------------------
// Laws
// ---------------------------------------------------------------------------
/// A configuration within the limits is used as it is, each value for what it
/// is meant for; the budget has 1048576 bytes in each mebibyte.
pub proof fn settings_within_limits_are_used(global: GlobalSettingsConfig)
    requires
        (Real64 { bits: ONE_BITS }).le(global.nm_per_pixel),
        global.sensor_width > 0,
        global.sensor_height > 0,
        global.acq_time_ms >= 1,
        global.preview_interval_ms >= 10,
        global.point_cloud_interval_ms >= 20,
        global.disk_writer_buffer_mib >= 1,
        global.event_store_budget_mib >= 1,
        global.event_store_budget_mib * 1_048_576 <= usize::MAX,
    ensures
        ({
            let used = settled(global);
            &&& used.nm_per_pixel == global.nm_per_pixel
            &&& used.sensor_width == global.sensor_width
            &&& used.sensor_height == global.sensor_height
            &&& used.acq_time_ms == global.acq_time_ms
            &&& used.preview_interval_ms == global.preview_interval_ms
            &&& used.point_cloud_interval_ms == global.point_cloud_interval_ms
            &&& used.disk_writer_buffer_mib == global.disk_writer_buffer_mib
            &&& used.event_store_budget_bytes == global.event_store_budget_mib * 1_048_576
            &&& used.published() == global
        }),
{
    let mib = global.event_store_budget_mib as int;
    assert((mib * 1_048_576) / 1_048_576 == mib);
}

/// What the menu offers: the camera is started from an idle session, a
/// recording also from a preview, replay commands need a replay, and the
/// settings of a running recording may be locked.
pub proof fn menus_offer_what_can_be_done(mode: AppMode, state: MenuState)
    ensures
        ({
            let items = menu(mode, state);
            &&& items.open_replay <==> mode is Idle
            &&& items.probe <==> mode is Idle
            &&& items.preview <==> mode is Idle && state.camera_known
            &&& items.record <==> mode is Idle || mode is Previewing
            &&& items.stop <==> !(mode is Idle)
            &&& items.export_stack <==> mode is Replaying && state.replay_known && !state.exporting
            &&& items.play_pause <==> mode is Replaying && !state.replay_finished
            &&& items.save_config <==> !(mode is Replaying)
            &&& items.load_config <==> mode is Idle || mode is Previewing
            &&& items.edit_output <==> mode is Idle || mode is Previewing
            &&& items.apply_settings <==> (mode is Previewing || mode is Recording)
                && !state.settings_locked
            &&& items.edit_sensor <==> mode is Idle
            &&& items.edit_disk_buffer <==> mode is Idle
            &&& items.edit_acq_time <==> !(mode is Recording) || !state.settings_locked
        }),
{
}

/// A replay is shown with the size of its own sensor, with its pixel pitch
/// where it has one, and with the chosen acquisition time; a settings file
/// that says more than the defaults is shown as it is.
pub proof fn replays_are_shown_as_they_were_taken(
    sidecar: ReplaySidecar,
    defaults: GlobalSettingsConfig,
    info: ReplayFileInfo,
    pitch: Option<Real64>,
    acq_time_ms: u64,
)
    ensures
        ({
            let shown = sidecar.shown_globals(defaults, info, pitch, acq_time_ms);
            let own = !(sidecar is Loaded) || sidecar->Loaded_global.same(defaults);
            &&& own ==> shown.sensor_width == info.width && shown.sensor_height == info.height
            &&& own && pitch is Some ==> shown.nm_per_pixel == pitch->0
            &&& !own ==> shown == sidecar->Loaded_global
            &&& !(sidecar is Loaded) && acq_time_ms > 0 ==> shown.acq_time_ms == acq_time_ms
            &&& !(sidecar is Loaded) && pitch is None ==> shown.nm_per_pixel
                == defaults.nm_per_pixel
            &&& !(sidecar is Loaded) ==> shown.preview_interval_ms == defaults.preview_interval_ms
            &&& sidecar is Loaded && own ==> shown.acq_time_ms == sidecar->Loaded_global.acq_time_ms
        }),
        ({
            let pipeline = replay_pipeline(defaults, info, pitch, acq_time_ms);
            pipeline.roi_width == info.width && pipeline.roi_height == info.height
        }),
        defaults.same(defaults) <==> !defaults.nm_per_pixel.is_nan(),
{
}

/// Pending changes are listed, settings before the acquisition time.
pub proof fn pending_changes_are_listed(pending: PendingChanges)
    ensures
        pending.text() is None <==> !pending.config_dirty && !pending.acq_dirty,
        pending.config_dirty && !pending.acq_dirty ==> pending.text() == Some(
            "Apply pending changes: settings"@,
        ),
        !pending.config_dirty && pending.acq_dirty ==> pending.text() == Some(
            "Apply pending changes: acquisition timing"@,
        ),
        pending.config_dirty && pending.acq_dirty ==> pending.text() == Some(
            "Apply pending changes: settings, acquisition timing"@,
        ),
{
}

/// The rate of an interval is a thousand divided by it, rounded once to 53
/// bits.
pub proof fn rates_are_divided_once(interval_ms: nat)
    requires
        0 < interval_ms < pow2(53),
    ensures
        rounds_to(1_000, interval_ms, rate_of(interval_ms).0, rate_of(interval_ms).1),
{
    vstd::arithmetic::power2::lemma2_to64();
    lemma2_to64_rest();
    let k = short_number_stays(interval_ms, 0);
    assert(interval_ms * 1 == interval_ms) by (nonlinear_arith);
    let n = (interval_ms * pow2(k)) as nat;
    assert(1_000 < pow2(53) * interval_ms) by (nonlinear_arith)
        requires
            1_000 < pow2(53),
            interval_ms > 0,
    ;
    let v = rounding_exists(1_000, interval_ms);
    moved_divisor(1_000, interval_ms, k, v.0, v.1 - k);
    rounding_is_unique(1_000, n, v.0, v.1 - k);
}

/// A rate that divides a thousand has the interval with which it makes up a
/// thousand.
pub proof fn whole_rates_have_whole_intervals(
    hz: Real64,
    h: nat,
    interval: Real64,
    a: nat,
    low: Real64,
    high: Real64,
)
    requires
        a * h == 1_000,
        hz.is_whole(h),
        interval.is_whole(a),
        low.le(hz),
        hz.le(high),
    ensures
        interval_of(hz, low, high) == a,
{
    let thousand = Real64 { bits: THOUSAND_BITS_64 };
    vstd::arithmetic::power2::lemma2_to64();
    lemma2_to64_rest();
    assert(h > 0 && a > 0) by (nonlinear_arith)
        requires
            a * h == 1_000,
            a >= 0,
            h >= 0,
    ;
    assert(a <= 1_000) by (nonlinear_arith)
        requires
            a * h == 1_000,
            h > 0,
            a > 0,
    ;
    assert(pow2(9) == 512 && pow2(10) == 1_024 && pow2(43) == 8_796_093_022_208);
    assert(thousand.is_whole_with(1_000, 9));
    whole_numbers_are_divided_exactly(thousand, a, h, hz, interval);
    assert(hz.within(low, high) == hz);
    let k = whole_parts(interval, a);
    assert(parts_of(interval) == ((a * pow2(k)) as nat, -(k as int)));
    half_up_of_moved_bits(a, k, 0);
    assert(a * pow2(0) == a && -(k as int) == 0 - k);
    assert(half_up(a, 0) == a);
}

/// Bytes are counted in steps of a mebibyte up to the largest number there is.
pub proof fn mebibytes_add_up(a: nat, b: nat)
    ensures
        mebibytes(0) == 0,
        mebibytes(a + 1) <= usize::MAX,
        mebibytes(a + 1) < usize::MAX ==> mebibytes(a + 1) - mebibytes(a) == 1024 * 1024,
        a <= b ==> mebibytes(a) <= mebibytes(b),
{
}

} // verus!
