//! Analysis runs: deterministic plugin analysis over a range of a recording.
//! A run captures its whole configuration, executes in the background, and
//! keeps its results in the session.
use crate::arithmetic::{minus, minus_of};
use crate::binary64::{Real64, INFINITY_BITS};
use crate::naming::{
    file_stem, join_path, optional_text, path_below, shortened, slug, slugify, stem_of, truncate,
};
use crate::seconds::{
    format_us_span, micros, push_seconds, seconds_of, seconds_text, seconds_to_us, span_text,
    us_to_seconds,
};
use crate::text::{blank, decimal, is_blank, push_decimal, trim_text, trimmed};
use crate::whole_text::{fixed_text, push_fixed};
use vstd::prelude::*;

verus! {

/// A time in seconds, with three decimals.
pub fn format_seconds(seconds: Real64) -> (out: String)
    ensures
        out@ == fixed_text(seconds, 3) + " s"@,
{
    let mut out = String::new();
    push_fixed(&mut out, seconds, 3);
    assert(out@ =~= fixed_text(seconds, 3));
    out.append(" s");
    out
}

/// A plugin that can take part in a run.
#[derive(Debug)]
pub struct PluginChoice {
    pub name: String,
    pub phase: String,
    pub selected: bool,
}

/// Everything that it takes to start a run.
#[derive(Debug)]
pub struct AnalysisStartRequest {
    pub name: String,
    pub input_path: String,
    pub output_dir: String,
    pub t_start_us: Option<u64>,
    pub t_end_us: Option<u64>,
    pub acq_time_us: u64,
    pub selected_plugins: Vec<String>,
}

/// How far a run has come.
#[derive(Debug, Clone, Copy, PartialEq, Eq, Structural)]
pub struct OfflineProgress {
    pub processed_windows: u64,
    pub total_windows: u64,
}

/// The result of a finished run, with the snapshots of its datasets.
#[derive(Debug)]
pub struct RunSummary<S> {
    pub processed_windows: u64,
    pub exported_files: u64,
    pub host_snapshots: S,
}

#[derive(Debug)]
pub enum AnalysisRunState<S> {
    Running { latest_progress: Option<OfflineProgress>, cancel_requested: bool },
    Completed { summary: RunSummary<S> },
    Failed(String),
    Cancelled,
}

#[derive(Debug)]
pub struct AnalysisRun<S> {
    pub id: u64,
    pub name: String,
    pub input_path: String,
    pub output_dir: String,
    pub range_label: String,
    pub window_label: String,
    pub plugin_names: Vec<String>,
    pub state: AnalysisRunState<S>,
}

impl<S> AnalysisRun<S> {
    pub fn is_running(&self) -> (out: bool)
        ensures
            out == (self.state is Running),
    {
        match &self.state {
            AnalysisRunState::Running { .. } => true,
            _ => false,
        }
    }
}

/// What the end of a run is announced with.
#[derive(Debug, PartialEq, Eq)]
pub enum AnalysisRunEvent {
    Finished { id: u64 },
    Failed { id: u64, error: String },
}

/// What the list of runs asks for.
#[derive(Debug, Clone, Copy, PartialEq, Eq, Structural)]
pub enum AnalysisPanelAction {
    NewAnalysis,
    ViewResults(u64),
    OpenFolder(u64),
    Remove(u64),
}

// ---------------------------------------------------------------------------
// Labels
// ---------------------------------------------------------------------------
/// A bound of a range, or the word that stands for its absence.
pub open spec fn bound_text(bound: Option<u64>, absent: Seq<char>) -> Seq<char> {
    match bound {
        Some(us) => decimal(us as nat),
        None => absent,
    }
}

/// The text of a half-open range of microseconds.
pub open spec fn range_text(t_start_us: Option<u64>, t_end_us: Option<u64>) -> Seq<char> {
    if t_start_us is None && t_end_us is None {
        "whole file"@
    } else {
        "["@ + bound_text(t_start_us, "start"@) + ", "@ + bound_text(t_end_us, "end"@) + ") us"@
    }
}

pub fn range_label(t_start_us: Option<u64>, t_end_us: Option<u64>) -> (out: String)
    ensures
        out@ == range_text(t_start_us, t_end_us),
{
    if t_start_us.is_none() && t_end_us.is_none() {
        return "whole file".to_owned();
    }
    let mut out = "[".to_owned();
    match t_start_us {
        Some(us) => push_decimal(&mut out, us),
        None => out.append("start"),
    }
    out.append(", ");
    match t_end_us {
        Some(us) => push_decimal(&mut out, us),
        None => out.append("end"),
    }
    out.append(") us");
    out
}

/// The text of a window's length.
pub open spec fn window_text(acq_time_us: u64) -> Seq<char> {
    if acq_time_us % 1_000 == 0 {
        decimal((acq_time_us / 1_000) as nat) + " ms windows"@
    } else {
        decimal(acq_time_us as nat) + " us windows"@
    }
}

pub fn window_label(acq_time_us: u64) -> (out: String)
    ensures
        out@ == window_text(acq_time_us),
{
    let mut out = String::new();
    if acq_time_us % 1_000 == 0 {
        push_decimal(&mut out, acq_time_us / 1_000);
        out.append(" ms windows");
    } else {
        push_decimal(&mut out, acq_time_us);
        out.append(" us windows");
    }
    assert(out@ =~= window_text(acq_time_us));
    out
}

/// A limited range never reads as the whole file.
pub proof fn limited_range_is_told_apart(t_start_us: Option<u64>, t_end_us: Option<u64>)
    requires
        t_start_us is Some || t_end_us is Some,
    ensures
        range_text(t_start_us, t_end_us) != range_text(None, None),
{
    reveal_strlit("[");
    reveal_strlit("whole file");
    assert(range_text(t_start_us, t_end_us)[0] == '[');
}

/// The names of the plugins that are selected, in order.
pub open spec fn selected_names(plugins: Seq<PluginChoice>) -> Seq<Seq<char>>
    decreases plugins.len(),
{
    if plugins.len() == 0 {
        seq![]
    } else {
        let before = selected_names(plugins.drop_last());
        if plugins.last().selected {
            before.push(plugins.last().name@)
        } else {
            before
        }
    }
}

/// The characters of each text of a list.
pub open spec fn texts_of(list: Seq<String>) -> Seq<Seq<char>> {
    list.map_values(|s: String| s@)
}

/// Texts in a row, with a separator between them.
pub open spec fn joined(list: Seq<Seq<char>>, separator: Seq<char>) -> Seq<char>
    decreases list.len(),
{
    if list.len() == 0 {
        seq![]
    } else if list.len() == 1 {
        list[0]
    } else {
        joined(list.drop_last(), separator) + separator + list.last()
    }
}

pub fn join_texts(list: &Vec<String>, separator: &str) -> (out: String)
    ensures
        out@ == joined(texts_of(list@), separator@),
{
    let mut out = String::new();
    let mut i: usize = 0;
    let ghost all = texts_of(list@);
    assert(all.take(0) =~= Seq::<Seq<char>>::empty());
    while i < list.len()
        invariant
            i <= list@.len(),
            all == texts_of(list@),
            out@ == joined(all.take(i as int), separator@),
        decreases list@.len() - i,
    {
        assert(all.take(i + 1).drop_last() =~= all.take(i as int));
        assert(all.take(i + 1).last() == list@[i as int]@);
        if i > 0 {
            out.append(separator);
        }
        out.append(list[i].as_str());
        assert(out@ =~= joined(all.take(i + 1), separator@));
        i = i + 1;
    }
    assert(all.take(all.len() as int) =~= all);
    out
}

// ---------------------------------------------------------------------------
// The dialog
// ---------------------------------------------------------------------------
/// What is known of the time span of the input file.
#[derive(Debug)]
pub enum TimelineState {
    Missing,
    Probing,
    Ready { first_us: u64, last_us: u64 },
    Failed(String),
}

/// What has come from the background probe of a file.
#[derive(Debug)]
pub enum ProbeReport {
    Pending,
    Done { first_us: u64, last_us: u64 },
    Failed(String),
    Ended,
}

/// The configuration of the next run.
#[derive(Debug)]
pub struct AnalysisDialog {
    pub open: bool,
    pub input_path: Option<String>,
    pub timeline: TimelineState,
    pub use_custom_range: bool,
    pub start_seconds: Real64,
    pub end_seconds: Real64,
    pub window_ms: u64,
    pub run_name: String,
    pub output_parent: String,
    pub plugins: Vec<PluginChoice>,
    pub error: Option<String>,
}

/// The bit pattern of 0.001, the least span of the range sliders.
pub const LEAST_SLIDER_SPAN: u64 = 0x3f50_624d_d2f1_a9fc;

/// `n`, but one in place of zero.
pub open spec fn at_least_one(n: u64) -> u64 {
    if n == 0 {
        1
    } else {
        n
    }
}

/// `a + b`, or the largest number of 64 bits.
pub open spec fn saturated_sum(a: u64, b: nat) -> u64 {
    if a + b > u64::MAX {
        u64::MAX
    } else {
        (a + b) as u64
    }
}

/// Milliseconds in microseconds, as far as 64 bits count.
pub open spec fn ms_to_us(ms: u64) -> u64 {
    if ms * 1_000 > u64::MAX {
        u64::MAX
    } else {
        (ms * 1_000) as u64
    }
}

pub fn saturating_us(ms: u64) -> (out: u64)
    ensures
        out == ms_to_us(ms),
{
    if ms > 18_446_744_073_709_551 {
        u64::MAX
    } else {
        ms * 1_000
    }
}

fn saturating_sum(a: u64, b: u64) -> (out: u64)
    ensures
        out == saturated_sum(a, b as nat),
{
    if a > u64::MAX - b {
        u64::MAX
    } else {
        a + b
    }
}

impl TimelineState {
    /// The span of a timeline that is known.
    pub open spec fn span(self) -> Option<nat> {
        match self {
            TimelineState::Ready { first_us, last_us } => Some(
                if last_us >= first_us {
                    (last_us - first_us) as nat
                } else {
                    0
                },
            ),
            _ => None,
        }
    }
}

impl AnalysisDialog {
    /// The file that is analysed.
    pub fn input_path(&self) -> (out: Option<&str>)
        ensures
            out is Some <==> self.input_path is Some,
            out matches Some(path) ==> path@ == self.input_path->0@,
    {
        match &self.input_path {
            Some(path) => Some(path.as_str()),
            None => None,
        }
    }

    /// Nothing has been chosen yet.
    pub open spec fn is_blank(self) -> bool {
        &&& !self.open
        &&& self.input_path is None
        &&& self.timeline is Missing
        &&& !self.use_custom_range
        &&& self.start_seconds.bits == 0
        &&& self.end_seconds.bits == 0
        &&& self.window_ms == 1
        &&& self.run_name@ == Seq::<char>::empty()
        &&& self.output_parent@ == Seq::<char>::empty()
        &&& self.plugins@.len() == 0
        &&& self.error is None
    }

    /// The dialog before it is opened for the first time.
    pub fn closed() -> (out: Self)
        ensures
            out.is_blank(),
    {
        AnalysisDialog {
            open: false,
            input_path: None,
            timeline: TimelineState::Missing,
            use_custom_range: false,
            start_seconds: Real64 { bits: 0 },
            end_seconds: Real64 { bits: 0 },
            window_ms: 1,
            run_name: String::new(),
            output_parent: String::new(),
            plugins: Vec::new(),
            error: None,
        }
    }

    fn span_us(&self) -> (out: Option<u64>)
        ensures
            match out {
                Some(us) => self.timeline.span() == Some(us as nat),
                None => self.timeline.span() is None,
            },
    {
        match &self.timeline {
            TimelineState::Ready { first_us, last_us } => {
                if *last_us >= *first_us {
                    Some(*last_us - *first_us)
                } else {
                    Some(0)
                }
            },
            _ => None,
        }
    }

    /// The length of the recording in seconds, where it is known.
    pub fn duration_seconds(&self) -> (out: Option<Real64>)
        ensures
            match out {
                Some(s) => self.timeline.span() matches Some(us) && s.bits == seconds_of(us)
                    && s.bits < INFINITY_BITS,
                None => self.timeline.span() is None,
            },
    {
        match self.span_us() {
            Some(us) => Some(us_to_seconds(us)),
            None => None,
        }
    }

    /// The end of the range that covers the whole timeline.
    pub open spec fn timeline_end(self) -> int {
        match self.timeline.span() {
            Some(us) => seconds_of(us),
            None => 0,
        }
    }

    fn reset_range_to_timeline(&mut self)
        ensures
            final(self).start_seconds.bits == 0,
            final(self).end_seconds.bits == old(self).timeline_end(),
            *final(self) == (AnalysisDialog {
                start_seconds: final(self).start_seconds,
                end_seconds: final(self).end_seconds,
                ..*old(self)
            }),
    {
        let end = match self.duration_seconds() {
            Some(s) => s,
            None => Real64 { bits: 0 },
        };
        self.start_seconds = Real64 { bits: 0 };
        self.end_seconds = end;
    }

    /// The name that a run over a file gets.
    pub open spec fn named_run(id: u64, file_name: Option<Seq<char>>) -> Seq<char> {
        "Run "@ + decimal(id as nat) + " \u{2014} "@ + (match file_name {
            Some(name) => stem_of(name),
            None => "recording"@,
        })
    }

    /// Takes a file as input: its path, its name and its folder. Tells whether
    /// its timeline has to be probed.
    pub fn set_input(
        &mut self,
        path: String,
        file_name: Option<&str>,
        parent: &str,
        timeline: Option<(u64, u64)>,
        next_run_id: u64,
    ) -> (probe: bool)
        ensures
            probe == (timeline is None),
            final(self).open == old(self).open,
            final(self).use_custom_range == old(self).use_custom_range,
            final(self).window_ms == old(self).window_ms,
            final(self).plugins == old(self).plugins,
            final(self).input_path == Some(path),
            final(self).error is None,
            final(self).run_name@ == Self::named_run(next_run_id, optional_text(file_name)),
            final(self).output_parent@ == parent@,
            match timeline {
                Some(span) => final(self).timeline == (TimelineState::Ready {
                    first_us: span.0,
                    last_us: span.1,
                }),
                None => final(self).timeline is Probing,
            },
            final(self).start_seconds.bits == 0,
            final(self).end_seconds.bits == final(self).timeline_end(),
    {
        let mut name = "Run ".to_owned();
        push_decimal(&mut name, next_run_id);
        name.append(" \u{2014} ");
        match file_name {
            Some(n) => {
                let stem = file_stem(n);
                name.append(stem.as_str());
            },
            None => name.append("recording"),
        }
        self.run_name = name;
        self.output_parent = parent.to_owned();
        self.timeline = match timeline {
            Some((first_us, last_us)) => TimelineState::Ready { first_us, last_us },
            None => TimelineState::Probing,
        };
        self.input_path = Some(path);
        self.error = None;
        self.reset_range_to_timeline();
        timeline.is_none()
    }

    /// Takes in what came from the probe of the file; without a probe under
    /// way nothing happens.
    pub fn poll_probe(&mut self, report: ProbeReport)
        ensures
            !(old(self).timeline is Probing) ==> *final(self) == *old(self),
            old(self).timeline is Probing ==> match report {
                ProbeReport::Pending => *final(self) == *old(self),
                ProbeReport::Done { first_us, last_us } => {
                    &&& final(self).timeline == (TimelineState::Ready { first_us, last_us })
                    &&& final(self).start_seconds.bits == 0
                    &&& final(self).end_seconds.bits == final(self).timeline_end()
                    &&& *final(self) == (AnalysisDialog {
                        timeline: final(self).timeline,
                        start_seconds: final(self).start_seconds,
                        end_seconds: final(self).end_seconds,
                        ..*old(self)
                    })
                },
                ProbeReport::Failed(err) => *final(self) == (AnalysisDialog {
                    timeline: TimelineState::Failed(err),
                    ..*old(self)
                }),
                ProbeReport::Ended => {
                    &&& final(self).timeline matches TimelineState::Failed(err) && err@
                        == "file probe ended unexpectedly"@
                    &&& *final(self) == (AnalysisDialog {
                        timeline: final(self).timeline,
                        ..*old(self)
                    })
                },
            },
    {
        let probing = match &self.timeline {
            TimelineState::Probing => true,
            _ => false,
        };
        if !probing {
            return;
        }
        match report {
            ProbeReport::Pending => {},
            ProbeReport::Done { first_us, last_us } => {
                self.timeline = TimelineState::Ready { first_us, last_us };
                self.reset_range_to_timeline();
            },
            ProbeReport::Failed(err) => {
                self.timeline = TimelineState::Failed(err);
            },
            ProbeReport::Ended => {
                self.timeline = TimelineState::Failed("file probe ended unexpectedly".to_owned());
            },
        }
    }

    /// What the dialog says of the timeline.
    pub open spec fn timeline_line(self) -> Option<Seq<char>> {
        match self.timeline {
            TimelineState::Missing => None,
            TimelineState::Probing => Some("Reading file timeline\u{2026}"@),
            TimelineState::Failed(err) => Some("Probe failed: "@ + err@),
            TimelineState::Ready { .. } => {
                let us = self.timeline.span()->0;
                Some(
                    "Events from "@ + seconds_text(0) + " to "@ + seconds_text(us) + " ("@
                        + span_text(us) + ")"@,
                )
            },
        }
    }

    pub fn timeline_text(&self) -> (out: Option<String>)
        ensures
            match out {
                Some(text) => self.timeline_line() == Some(text@),
                None => self.timeline_line() is None,
            },
    {
        match &self.timeline {
            TimelineState::Missing => None,
            TimelineState::Probing => Some("Reading file timeline\u{2026}".to_owned()),
            TimelineState::Failed(err) => {
                let mut text = "Probe failed: ".to_owned();
                text.append(err.as_str());
                Some(text)
            },
            TimelineState::Ready { first_us, last_us } => {
                let us: u64 = if *last_us >= *first_us {
                    *last_us - *first_us
                } else {
                    0
                };
                let mut text = "Events from ".to_owned();
                push_seconds(&mut text, 0);
                text.append(" to ");
                push_seconds(&mut text, us);
                text.append(" (");
                let span = format_us_span(us);
                text.append(span.as_str());
                text.append(")");
                Some(text)
            },
        }
    }

    /// The end of the range sliders, in seconds.
    pub open spec fn slider_end(self) -> Real64 {
        (Real64 { bits: self.timeline_end() as u64 }).larger_of(Real64 { bits: LEAST_SLIDER_SPAN })
    }

    /// Whether the range lies on the sliders: it begins at zero or later, ends
    /// no earlier than it begins and no later than the sliders do.
    pub open spec fn range_in_order(self) -> bool {
        &&& (Real64 { bits: 0 }).le(self.start_seconds)
        &&& self.start_seconds.le(self.end_seconds)
        &&& self.end_seconds.le(self.slider_end())
    }

    /// Whether the range ends no later than the sliders do, as far as it has an
    /// end.
    pub open spec fn ends_on_slider(self) -> bool {
        self.end_seconds.is_nan() || self.end_seconds.le(self.slider_end())
    }

    fn slider_limit(&self) -> (out: Real64)
        requires
            self.timeline is Ready,
        ensures
            out == self.slider_end(),
            out.bits < INFINITY_BITS,
            (Real64 { bits: 0 }).le(out),
    {
        let end = match self.duration_seconds() {
            Some(s) => s,
            None => Real64 { bits: 0 },
        };
        end.larger(Real64 { bits: LEAST_SLIDER_SPAN })
    }

    /// Moves the range onto the sliders.
    pub fn settle_range(&mut self)
        requires
            old(self).timeline is Ready,
            !old(self).start_seconds.is_nan(),
        ensures
            !old(self).end_seconds.is_nan() ==> final(self).range_in_order(),
            final(self).start_seconds == old(self).start_seconds.within(
                Real64 { bits: 0 },
                old(self).slider_end(),
            ),
            final(self).end_seconds == old(self).end_seconds.within(
                final(self).start_seconds,
                old(self).slider_end(),
            ),
            *final(self) == (AnalysisDialog {
                start_seconds: final(self).start_seconds,
                end_seconds: final(self).end_seconds,
                ..*old(self)
            }),
    {
        let limit = self.slider_limit();
        let start = self.start_seconds.clamped(Real64 { bits: 0 }, limit);
        let end = self.end_seconds.clamped(start, limit);
        self.start_seconds = start;
        self.end_seconds = end;
    }

    /// The start slider was moved: it pushes the end along.
    pub fn move_start(&mut self, to: Real64)
        ensures
            (Real64 { bits: 0 }).le(to) && to.le(old(self).slider_end()) && old(
                self,
            ).ends_on_slider() ==> final(self).range_in_order(),
            *final(self) == (AnalysisDialog {
                start_seconds: to,
                end_seconds: old(self).end_seconds.larger_of(to),
                ..*old(self)
            }),
    {
        self.start_seconds = to;
        self.end_seconds = self.end_seconds.larger(to);
    }

    /// The end slider was moved.
    pub fn move_end(&mut self, to: Real64)
        ensures
            (Real64 { bits: 0 }).le(old(self).start_seconds) && old(self).start_seconds.le(to)
                && to.le(old(self).slider_end()) ==> final(self).range_in_order(),
            *final(self) == (AnalysisDialog { end_seconds: to, ..*old(self) }),
    {
        self.end_seconds = to;
    }

    /// Where the playhead stands on the sliders.
    pub open spec fn playhead_on_slider(self, playhead_us: u64) -> Real64 {
        let first = self.timeline->Ready_first_us;
        let us = if playhead_us >= first {
            (playhead_us - first) as nat
        } else {
            0
        };
        (Real64 { bits: seconds_of(us) as u64 }).smaller_of(self.slider_end())
    }

    pub fn playhead_seconds(&self, playhead_us: u64) -> (out: Real64)
        requires
            self.timeline is Ready,
        ensures
            out == self.playhead_on_slider(playhead_us),
            (Real64 { bits: 0 }).le(out),
            out.le(self.slider_end()),
    {
        let limit = self.slider_limit();
        let first: u64 = match &self.timeline {
            TimelineState::Ready { first_us, .. } => *first_us,
            _ => 0,
        };
        let us: u64 = if playhead_us >= first {
            playhead_us - first
        } else {
            0
        };
        us_to_seconds(us).smaller(limit)
    }

    /// Begins the range at the playhead.
    pub fn start_from_playhead(&mut self, playhead_us: u64)
        requires
            old(self).timeline is Ready,
        ensures
            old(self).ends_on_slider() ==> final(self).range_in_order(),
            *final(self) == (AnalysisDialog {
                start_seconds: old(self).playhead_on_slider(playhead_us),
                end_seconds: old(self).end_seconds.larger_of(
                    old(self).playhead_on_slider(playhead_us),
                ),
                ..*old(self)
            }),
    {
        let at = self.playhead_seconds(playhead_us);
        self.start_seconds = at;
        self.end_seconds = self.end_seconds.larger(at);
    }

    /// Ends the range at the playhead.
    pub fn end_at_playhead(&mut self, playhead_us: u64)
        requires
            old(self).timeline is Ready,
        ensures
            old(self).start_seconds.is_nan() || (Real64 { bits: 0 }).le(old(self).start_seconds)
                ==> final(self).range_in_order(),
            *final(self) == (AnalysisDialog {
                start_seconds: old(self).start_seconds.smaller_of(
                    old(self).playhead_on_slider(playhead_us),
                ),
                end_seconds: old(self).playhead_on_slider(playhead_us),
                ..*old(self)
            }),
    {
        let at = self.playhead_seconds(playhead_us);
        self.end_seconds = at;
        self.start_seconds = self.start_seconds.smaller(at);
    }

    /// The number of windows of the range: of the whole file, or of the chosen
    /// part of it.
    pub open spec fn windows(self) -> Option<int> {
        match self.timeline.span() {
            Some(us) => {
                let span = if self.use_custom_range {
                    micros(
                        minus_of(self.end_seconds, self.start_seconds).larger_of(
                            Real64 { bits: 0 },
                        ),
                    ) as int
                } else {
                    micros(Real64 { bits: seconds_of(us) as u64 }) as int
                };
                let window = ms_to_us(at_least_one(self.window_ms)) as int;
                let count = (span + window - 1) / window;
                Some(
                    if count < 1 {
                        1
                    } else {
                        count
                    },
                )
            },
            None => None,
        }
    }

    pub fn estimated_windows(&self) -> (out: Option<u64>)
        ensures
            match out {
                Some(n) => self.windows() == Some(n as int),
                None => self.windows() is None,
            },
    {
        match self.duration_seconds() {
            Some(duration) => {
                let span: u64 = if self.use_custom_range {
                    let chosen = minus(self.end_seconds, self.start_seconds);
                    seconds_to_us(chosen.larger(Real64 { bits: 0 }))
                } else {
                    seconds_to_us(duration)
                };
                let window: u64 = saturating_us(
                    if self.window_ms == 0 {
                        1
                    } else {
                        self.window_ms
                    },
                );
                let padded: u128 = span as u128 + window as u128 - 1;
                let count: u128 = padded / window as u128;
                proof {
                    assert(count <= span) by (nonlinear_arith)
                        requires
                            window >= 1,
                            count == (span + window - 1) / (window as int),
                            span >= 0,
                    ;
                }
                Some(
                    if count < 1 {
                        1
                    } else {
                        count as u64
                    },
                )
            },
            None => None,
        }
    }

    /// Where the run writes: a folder named after it, below the chosen one.
    pub open spec fn output_dir_text(self, separator: char) -> Seq<char> {
        path_below(trimmed(self.output_parent@), slug(self.run_name@), separator)
    }

    pub fn output_dir_name(&self, separator: char) -> (out: String)
        ensures
            out@ == self.output_dir_text(separator),
    {
        let name = slugify(self.run_name.as_str());
        let parent = trim_text(self.output_parent.as_str());
        join_path(parent.as_str(), name.as_str(), separator)
    }

    /// Why the run cannot be started as it is configured.
    pub open spec fn request_problem(self, output_exists: bool, separator: char) -> Option<
        Seq<char>,
    > {
        if self.input_path is None {
            Some("choose an input file"@)
        } else if self.timeline is Probing {
            Some("still reading the file timeline \u{2014} wait a moment"@)
        } else if is_blank(self.run_name@) {
            Some("give the run a name"@)
        } else if is_blank(self.output_parent@) {
            Some("choose an output folder"@)
        } else if selected_names(self.plugins@).len() == 0 {
            Some("select at least one plugin"@)
        } else if self.use_custom_range && !(self.timeline is Ready) {
            Some("time range needs a readable file timeline"@)
        } else if self.use_custom_range && self.end_seconds.le(self.start_seconds) {
            Some("end time must be greater than start time"@)
        } else if output_exists {
            Some(
                "output folder "@ + self.output_dir_text(separator)
                    + " already exists \u{2014} rename the run or pick another folder"@,
            )
        } else {
            None
        }
    }

    /// The range of the run in absolute microseconds. A range that reaches the
    /// end of the timeline includes its last event.
    pub open spec fn request_range(self) -> (Option<u64>, Option<u64>) {
        match self.timeline {
            TimelineState::Ready { first_us, last_us } => if self.use_custom_range {
                let reaches_end = (Real64 { bits: self.timeline_end() as u64 }).le(
                    self.end_seconds,
                );
                (
                    Some(saturated_sum(first_us, micros(self.start_seconds))),
                    Some(
                        if reaches_end {
                            saturated_sum(last_us, 1)
                        } else {
                            saturated_sum(first_us, micros(self.end_seconds))
                        },
                    ),
                )
            } else {
                (None, None)
            },
            _ => (None, None),
        }
    }

    fn selected_plugins(&self) -> (out: Vec<String>)
        ensures
            texts_of(out@) == selected_names(self.plugins@),
    {
        let mut out: Vec<String> = Vec::new();
        let mut i: usize = 0;
        assert(self.plugins@.take(0) =~= Seq::<PluginChoice>::empty());
        assert(texts_of(out@) =~= Seq::<Seq<char>>::empty());
        while i < self.plugins.len()
            invariant
                i <= self.plugins@.len(),
                texts_of(out@) == selected_names(self.plugins@.take(i as int)),
            decreases self.plugins@.len() - i,
        {
            assert(self.plugins@.take(i + 1).drop_last() =~= self.plugins@.take(i as int));
            if self.plugins[i].selected {
                let ghost before = out@;
                out.push(self.plugins[i].name.clone());
                assert(texts_of(out@) =~= texts_of(before).push(self.plugins@[i as int].name@));
            }
            i = i + 1;
        }
        assert(self.plugins@.take(self.plugins@.len() as int) =~= self.plugins@);
        out
    }

    /// Checks the configuration and makes a request of it. `output_exists`
    /// tells whether the run's folder is there already.
    pub fn build_request(&self, output_exists: bool, separator: char) -> (out: Result<
        AnalysisStartRequest,
        String,
    >)
        ensures
            match out {
                Ok(request) => {
                    &&& self.request_problem(output_exists, separator) is None
                    &&& request.name@ == trimmed(self.run_name@)
                    &&& self.input_path == Some(request.input_path)
                    &&& request.output_dir@ == self.output_dir_text(separator)
                    &&& (request.t_start_us, request.t_end_us) == self.request_range()
                    &&& request.acq_time_us == ms_to_us(at_least_one(self.window_ms))
                    &&& texts_of(request.selected_plugins@) == selected_names(self.plugins@)
                },
                Err(text) => self.request_problem(output_exists, separator) == Some(text@),
            },
    {
        let input_path = match &self.input_path {
            Some(path) => path.clone(),
            None => {
                return Err("choose an input file".to_owned());
            },
        };
        if let TimelineState::Probing = &self.timeline {
            return Err("still reading the file timeline \u{2014} wait a moment".to_owned());
        }
        if blank(self.run_name.as_str()) {
            return Err("give the run a name".to_owned());
        }
        if blank(self.output_parent.as_str()) {
            return Err("choose an output folder".to_owned());
        }
        let selected_plugins = self.selected_plugins();
        assert(texts_of(selected_plugins@).len() == selected_plugins@.len());
        if selected_plugins.len() == 0 {
            return Err("select at least one plugin".to_owned());
        }
        let mut t_start_us: Option<u64> = None;
        let mut t_end_us: Option<u64> = None;
        if self.use_custom_range {
            match &self.timeline {
                TimelineState::Ready { first_us, last_us } => {
                    if self.end_seconds.at_most(self.start_seconds) {
                        return Err("end time must be greater than start time".to_owned());
                    }
                    let duration = match self.duration_seconds() {
                        Some(s) => s,
                        None => Real64 { bits: 0 },
                    };
                    t_start_us = Some(saturating_sum(*first_us, seconds_to_us(self.start_seconds)));
                    t_end_us = Some(
                        if duration.at_most(self.end_seconds) {
                            saturating_sum(*last_us, 1)
                        } else {
                            saturating_sum(*first_us, seconds_to_us(self.end_seconds))
                        },
                    );
                },
                _ => {
                    return Err("time range needs a readable file timeline".to_owned());
                },
            }
        }
        let output_dir = self.output_dir_name(separator);
        if output_exists {
            let mut text = "output folder ".to_owned();
            text.append(output_dir.as_str());
            text.append(" already exists \u{2014} rename the run or pick another folder");
            return Err(text);
        }
        Ok(
            AnalysisStartRequest {
                name: trim_text(self.run_name.as_str()),
                input_path,
                output_dir,
                t_start_us,
                t_end_us,
                acq_time_us: saturating_us(
                    if self.window_ms == 0 {
                        1
                    } else {
                        self.window_ms
                    },
                ),
                selected_plugins,
            },
        )
    }

    /// Whether the run may be started: one executes at a time, and it needs an
    /// input.
    pub fn can_start(&self, run_active: bool) -> (out: bool)
        ensures
            out == (!run_active && self.input_path is Some),
    {
        !run_active && self.input_path.is_some()
    }

    /// The start button was pressed: gives the request and closes the dialog,
    /// or keeps it open with the reason why there is none.
    pub fn start_pressed(&mut self, run_active: bool, output_exists: bool, separator: char) -> (out:
        Option<AnalysisStartRequest>)
        ensures
            out is Some <==> !run_active && old(self).request_problem(output_exists, separator)
                is None,
            out matches Some(request) ==> {
                &&& request.name@ == trimmed(old(self).run_name@)
                &&& old(self).input_path == Some(request.input_path)
                &&& request.output_dir@ == old(self).output_dir_text(separator)
                &&& (request.t_start_us, request.t_end_us) == old(self).request_range()
                &&& request.acq_time_us == ms_to_us(at_least_one(old(self).window_ms))
                &&& texts_of(request.selected_plugins@) == selected_names(old(self).plugins@)
                &&& *final(self) == (AnalysisDialog { open: false, ..*old(self) })
            },
            out is None ==> {
                &&& *final(self) == (AnalysisDialog { error: final(self).error, ..*old(self) })
                &&& if run_active || old(self).input_path is None {
                    final(self).error == old(self).error
                } else {
                    final(self).error matches Some(text) && old(self).request_problem(
                        output_exists,
                        separator,
                    ) == Some(text@)
                }
            },
    {
        if !self.can_start(run_active) {
            return None;
        }
        match self.build_request(output_exists, separator) {
            Ok(request) => {
                self.open = false;
                Some(request)
            },
            Err(text) => {
                self.error = Some(text);
                None
            },
        }
    }

    /// The cancel button was pressed.
    pub fn cancel_pressed(&mut self)
        ensures
            *final(self) == (AnalysisDialog { open: false, ..*old(self) }),
    {
        self.open = false;
    }

    /// Ends a pass over the dialog: it is open as its window is, but for one
    /// that led to a request.
    pub fn finish_pass(&mut self, window_open: bool, requested: bool)
        ensures
            *final(self) == (AnalysisDialog { open: window_open && !requested, ..*old(self) }),
    {
        self.open = window_open && !requested;
    }
}

/// A range that reaches the end of the timeline includes the last event of the
/// recording.
pub proof fn full_range_includes_last_event(dialog: AnalysisDialog)
    requires
        dialog.timeline is Ready,
        dialog.use_custom_range,
        (Real64 { bits: dialog.timeline_end() as u64 }).le(dialog.end_seconds),
        dialog.timeline->Ready_last_us < u64::MAX,
    ensures
        dialog.request_range().1 matches Some(end) && dialog.timeline->Ready_last_us < end,
{
}

// ---------------------------------------------------------------------------
// The runs
// ---------------------------------------------------------------------------
/// What has come from the background task of a run.
#[derive(Debug)]
pub enum RunOutcome<S> {
    Pending,
    Succeeded(RunSummary<S>),
    Failed(String),
    Ended,
}

/// The messages of a run since they were looked at last.
#[derive(Debug)]
pub struct RunReport<S> {
    pub progress: Option<OfflineProgress>,
    pub outcome: RunOutcome<S>,
}

/// An event, with its text as characters.
pub enum RunEventView {
    Finished(u64),
    Failed(u64, Seq<char>),
}

impl AnalysisRunEvent {
    pub open spec fn text(self) -> RunEventView {
        match self {
            AnalysisRunEvent::Finished { id } => RunEventView::Finished(id),
            AnalysisRunEvent::Failed { id, error } => RunEventView::Failed(id, error@),
        }
    }
}

/// Why a run failed, where it did.
pub open spec fn failure_of<S>(outcome: RunOutcome<S>) -> Option<Seq<char>> {
    match outcome {
        RunOutcome::Failed(error) => Some(error@),
        RunOutcome::Ended => Some("analysis task ended unexpectedly"@),
        _ => None,
    }
}

/// The progress that a running run shows after a report.
pub open spec fn progress_after(
    before: Option<OfflineProgress>,
    report: Option<OfflineProgress>,
) -> Option<OfflineProgress> {
    if report is Some {
        report
    } else {
        before
    }
}

/// Whether `after` is the state of a run once a report has come in.
pub open spec fn state_follows<S>(
    before: AnalysisRunState<S>,
    report: RunReport<S>,
    after: AnalysisRunState<S>,
) -> bool {
    match before {
        AnalysisRunState::Running { latest_progress, cancel_requested } => match report.outcome {
            RunOutcome::Pending => after == (AnalysisRunState::<S>::Running {
                latest_progress: progress_after(latest_progress, report.progress),
                cancel_requested,
            }),
            RunOutcome::Succeeded(summary) => after == (AnalysisRunState::<S>::Completed {
                summary,
            }),
            _ => if cancel_requested {
                after is Cancelled
            } else {
                after matches AnalysisRunState::Failed(text) && failure_of(report.outcome) == Some(
                    text@,
                )
            },
        },
        _ => after == before,
    }
}

/// The event that a report on a run leads to: a run that was to be cancelled
/// does not fail.
pub open spec fn event_of<S>(run: AnalysisRun<S>, report: RunReport<S>) -> Option<RunEventView> {
    match run.state {
        AnalysisRunState::Running { cancel_requested, .. } => match report.outcome {
            RunOutcome::Pending => None,
            RunOutcome::Succeeded(_) => Some(RunEventView::Finished(run.id)),
            _ => if cancel_requested {
                None
            } else {
                Some(RunEventView::Failed(run.id, failure_of(report.outcome)->0))
            },
        },
        _ => None,
    }
}

/// The events of the first `n` runs, in order.
pub open spec fn events_of<S>(
    runs: Seq<AnalysisRun<S>>,
    reports: Seq<RunReport<S>>,
    n: nat,
) -> Seq<RunEventView>
    decreases n,
{
    if n == 0 {
        seq![]
    } else {
        let before = events_of(runs, reports, (n - 1) as nat);
        match event_of(runs[n - 1], reports[n - 1]) {
            Some(event) => before.push(event),
            None => before,
        }
    }
}

/// Whether two runs agree in all but their state.
pub open spec fn same_run<S>(a: AnalysisRun<S>, b: AnalysisRun<S>) -> bool {
    a == (AnalysisRun { state: a.state, ..b })
}

/// The texts of events.
pub open spec fn event_texts(events: Seq<AnalysisRunEvent>) -> Seq<RunEventView> {
    events.map_values(|e: AnalysisRunEvent| e.text())
}

/// The position of the run with an identifier.
pub open spec fn position_of<S>(runs: Seq<AnalysisRun<S>>, id: u64, i: int) -> bool {
    0 <= i < runs.len() && runs[i].id == id
}

/// Whether some run has the identifier.
pub open spec fn has_run<S>(runs: Seq<AnalysisRun<S>>, id: u64) -> bool {
    exists|i: int| position_of(runs, id, i)
}

/// The runs of a session, the newest first, and the dialog for the next one.
#[derive(Debug)]
pub struct AnalysisRunsState<S> {
    pub panel_open: bool,
    pub dialog: AnalysisDialog,
    pub runs: Vec<AnalysisRun<S>>,
    pub next_run_id: u64,
}

impl<S> AnalysisRunsState<S> {
    /// The runs are numbered, the newest has the highest number, and every
    /// number is below the next one.
    pub open spec fn wf(self) -> bool {
        &&& forall|i: int, j: int|
            0 <= i < j < self.runs@.len() ==> #[trigger] self.runs@[i].id > #[trigger] self.runs@[j].id
        &&& forall|i: int|
            0 <= i < self.runs@.len() ==> (#[trigger] self.runs@[i]).id < self.next_run_id
    }

    pub fn new() -> (out: Self)
        ensures
            out.wf(),
            !out.panel_open,
            out.dialog.is_blank(),
            out.runs@.len() == 0,
            out.next_run_id == 1,
    {
        AnalysisRunsState {
            panel_open: false,
            dialog: AnalysisDialog::closed(),
            runs: Vec::new(),
            next_run_id: 1,
        }
    }

    /// The runs, the newest first.
    pub fn runs(&self) -> (out: &Vec<AnalysisRun<S>>)
        ensures
            *out == self.runs,
    {
        &self.runs
    }

    fn find(&self, id: u64) -> (out: Option<usize>)
        ensures
            match out {
                Some(i) => position_of(self.runs@, id, i as int),
                None => !has_run(self.runs@, id),
            },
    {
        let mut i: usize = 0;
        while i < self.runs.len()
            invariant
                i <= self.runs@.len(),
                forall|k: int| 0 <= k < i ==> !position_of(self.runs@, id, k),
            decreases self.runs@.len() - i,
        {
            if self.runs[i].id == id {
                return Some(i);
            }
            i = i + 1;
        }
        None
    }

    /// The run with an identifier.
    pub fn run(&self, id: u64) -> (out: Option<&AnalysisRun<S>>)
        ensures
            match out {
                Some(run) => exists|i: int| #[trigger]
                    position_of(self.runs@, id, i) && self.runs@[i] == *run,
                None => !has_run(self.runs@, id),
            },
    {
        match self.find(id) {
            Some(i) => {
                assert(position_of(self.runs@, id, i as int));
                Some(&self.runs[i])
            },
            None => None,
        }
    }

    pub fn any_running(&self) -> (out: bool)
        ensures
            out == exists|i: int|
                0 <= i < self.runs@.len() && (#[trigger] self.runs@[i]).state is Running,
    {
        let mut i: usize = 0;
        while i < self.runs.len()
            invariant
                i <= self.runs@.len(),
                forall|k: int| 0 <= k < i ==> !((#[trigger] self.runs@[k]).state is Running),
            decreases self.runs@.len() - i,
        {
            if self.runs[i].is_running() {
                return true;
            }
            i = i + 1;
        }
        false
    }

    /// Opens the dialog for a file, or for none yet. Tells whether the file's
    /// timeline has to be probed.
    pub fn open_dialog(
        &mut self,
        input: Option<InputFile>,
        window_ms: u64,
        plugins: Vec<PluginChoice>,
    ) -> (probe: bool)
        ensures
            final(self).panel_open == old(self).panel_open,
            final(self).runs == old(self).runs,
            final(self).next_run_id == old(self).next_run_id,
            probe == (input matches Some(file) && file.timeline is None),
            final(self).dialog.open,
            final(self).dialog.error is None,
            final(self).dialog.window_ms == at_least_one(window_ms),
            final(self).dialog.plugins == plugins,
            !final(self).dialog.use_custom_range,
            final(self).dialog.start_seconds.bits == 0,
            match input {
                Some(file) => {
                    &&& final(self).dialog.input_path == Some(file.path)
                    &&& final(self).dialog.run_name@ == AnalysisDialog::named_run(
                        old(self).next_run_id,
                        file.name_text(),
                    )
                    &&& final(self).dialog.output_parent@ == file.parent@
                    &&& match file.timeline {
                        Some(span) => final(self).dialog.timeline == (TimelineState::Ready {
                            first_us: span.0,
                            last_us: span.1,
                        }),
                        None => final(self).dialog.timeline is Probing,
                    }
                    &&& final(self).dialog.end_seconds.bits == final(self).dialog.timeline_end()
                },
                None => {
                    &&& final(self).dialog.input_path is None
                    &&& final(self).dialog.timeline is Missing
                    &&& final(self).dialog.run_name@ == "Run "@ + decimal(
                        old(self).next_run_id as nat,
                    )
                    &&& final(self).dialog.output_parent@ == Seq::<char>::empty()
                    &&& final(self).dialog.end_seconds == old(self).dialog.end_seconds
                },
            },
    {
        self.dialog.open = true;
        self.dialog.error = None;
        self.dialog.window_ms = if window_ms == 0 {
            1
        } else {
            window_ms
        };
        self.dialog.plugins = plugins;
        self.dialog.use_custom_range = false;
        self.dialog.start_seconds = Real64 { bits: 0 };
        self.dialog.input_path = None;
        self.dialog.timeline = TimelineState::Missing;
        match input {
            Some(file) => {
                let name: Option<&str> = match &file.name {
                    Some(n) => Some(n.as_str()),
                    None => None,
                };
                self.dialog.set_input(
                    file.path,
                    name,
                    file.parent.as_str(),
                    file.timeline,
                    self.next_run_id,
                )
            },
            None => {
                let mut name = "Run ".to_owned();
                push_decimal(&mut name, self.next_run_id);
                self.dialog.run_name = name;
                self.dialog.output_parent = String::new();
                false
            },
        }
    }

    /// Puts a run in front of the list; its background task is to be started
    /// with the request.
    pub fn start_run(&mut self, request: &AnalysisStartRequest) -> (id: u64)
        requires
            old(self).wf(),
            old(self).next_run_id < u64::MAX,
        ensures
            final(self).wf(),
            id == old(self).next_run_id,
            final(self).next_run_id == id + 1,
            final(self).panel_open,
            final(self).dialog == old(self).dialog,
            final(self).runs@.len() == old(self).runs@.len() + 1,
            final(self).runs@.skip(1) == old(self).runs@,
            ({
                let run = final(self).runs@[0];
                &&& run.id == id
                &&& run.name == request.name
                &&& run.input_path == request.input_path
                &&& run.output_dir == request.output_dir
                &&& run.range_label@ == range_text(request.t_start_us, request.t_end_us)
                &&& run.window_label@ == window_text(request.acq_time_us)
                &&& texts_of(run.plugin_names@) == texts_of(request.selected_plugins@)
                &&& run.state == (AnalysisRunState::<S>::Running {
                    latest_progress: None,
                    cancel_requested: false,
                })
            }),
    {
        let id: u64 = self.next_run_id;
        self.next_run_id = id + 1;
        let ghost before = self.runs@;
        let run = AnalysisRun {
            id,
            name: request.name.clone(),
            input_path: request.input_path.clone(),
            output_dir: request.output_dir.clone(),
            range_label: range_label(request.t_start_us, request.t_end_us),
            window_label: window_label(request.acq_time_us),
            plugin_names: copied_texts(&request.selected_plugins),
            state: AnalysisRunState::Running { latest_progress: None, cancel_requested: false },
        };
        self.runs.insert(0, run);
        self.panel_open = true;
        assert(self.runs@.skip(1) =~= before);
        assert forall|i: int| 0 < i < self.runs@.len() implies #[trigger] self.runs@[i]
            == before[i - 1] by {}
        id
    }

    /// Takes in a report on each run, in the order of the list, and lists what
    /// is to be announced.
    pub fn poll(&mut self, reports: Vec<RunReport<S>>) -> (events: Vec<AnalysisRunEvent>)
        requires
            old(self).wf(),
            reports@.len() == old(self).runs@.len(),
        ensures
            final(self).wf(),
            final(self).panel_open == old(self).panel_open,
            final(self).dialog == old(self).dialog,
            final(self).next_run_id == old(self).next_run_id,
            final(self).runs@.len() == old(self).runs@.len(),
            forall|i: int| #![trigger final(self).runs@[i]]
                0 <= i < final(self).runs@.len() ==> {
                    &&& same_run(final(self).runs@[i], old(self).runs@[i])
                    &&& state_follows(
                        old(self).runs@[i].state,
                        reports@[i],
                        final(self).runs@[i].state,
                    )
                },
            event_texts(events@) == events_of(old(self).runs@, reports@, reports@.len()),
    {
        let mut events: Vec<AnalysisRunEvent> = Vec::new();
        let ghost start = self.runs@;
        let ghost all = reports@;
        let mut i: usize = 0;
        assert(event_texts(events@) =~= Seq::<RunEventView>::empty());
        for report in it: reports
            invariant
                it.seq() == all,
                i == it.index(),
                all.len() == start.len(),
                start == old(self).runs@,
                self.panel_open == old(self).panel_open,
                self.dialog == old(self).dialog,
                self.next_run_id == old(self).next_run_id,
                self.runs@.len() == start.len(),
                forall|k: int| #![trigger self.runs@[k]]
                    0 <= k < i ==> same_run(self.runs@[k], start[k]) && state_follows(
                        start[k].state,
                        all[k],
                        self.runs@[k].state,
                    ),
                forall|k: int| #![trigger self.runs@[k]]
                    i <= k < start.len() ==> self.runs@[k] == start[k],
                event_texts(events@) == events_of(start, all, i as nat),
        {
            let ghost before = self.runs@;
            let ghost announced = events@;
            assert(self.runs@[i as int] == start[i as int]);
            let id: u64 = self.runs[i].id;
            let (running, shown, cancelled) = match &self.runs[i].state {
                AnalysisRunState::Running { latest_progress, cancel_requested } => (
                    true,
                    *latest_progress,
                    *cancel_requested,
                ),
                _ => (false, None, false),
            };
            if running {
                let progress = if report.progress.is_some() {
                    report.progress
                } else {
                    shown
                };
                let next = match report.outcome {
                    RunOutcome::Pending => AnalysisRunState::Running {
                        latest_progress: progress,
                        cancel_requested: cancelled,
                    },
                    RunOutcome::Succeeded(summary) => {
                        events.push(AnalysisRunEvent::Finished { id });
                        AnalysisRunState::Completed { summary }
                    },
                    RunOutcome::Failed(error) => {
                        if cancelled {
                            AnalysisRunState::Cancelled
                        } else {
                            events.push(AnalysisRunEvent::Failed { id, error: error.clone() });
                            AnalysisRunState::Failed(error)
                        }
                    },
                    RunOutcome::Ended => {
                        if cancelled {
                            AnalysisRunState::Cancelled
                        } else {
                            events.push(
                                AnalysisRunEvent::Failed {
                                    id,
                                    error: "analysis task ended unexpectedly".to_owned(),
                                },
                            );
                            AnalysisRunState::Failed("analysis task ended unexpectedly".to_owned())
                        }
                    },
                };
                self.runs[i].state = next;
            }
            proof {
                assert(same_run(self.runs@[i as int], start[i as int]));
                assert(state_follows(start[i as int].state, all[i as int], self.runs@[i as int].state));
                if events@.len() > announced.len() {
                    assert(event_texts(events@) =~= event_texts(announced).push(events@.last().text()));
                }
            }
            let total: usize = self.runs.len();
            assert(i < total);
            i = i + 1;
        }
        assert forall|a: int, b: int| 0 <= a < b < self.runs@.len() implies
            #[trigger] self.runs@[a].id > #[trigger] self.runs@[b].id by {
            assert(same_run(self.runs@[a], start[a]));
            assert(same_run(self.runs@[b], start[b]));
        }
        assert forall|a: int| 0 <= a < self.runs@.len() implies (#[trigger] self.runs@[a]).id
            < self.next_run_id by {
            assert(same_run(self.runs@[a], start[a]));
        }
        events
    }

    /// Asks a running run to stop. Tells whether its task has to be told.
    pub fn request_cancel(&mut self, id: u64) -> (stop: bool)
        requires
            old(self).wf(),
        ensures
            final(self).wf(),
            final(self).panel_open == old(self).panel_open,
            final(self).dialog == old(self).dialog,
            final(self).next_run_id == old(self).next_run_id,
            final(self).runs@.len() == old(self).runs@.len(),
            stop == exists|i: int| #[trigger]
                position_of(old(self).runs@, id, i) && old(self).runs@[i].state is Running,
            forall|i: int| #![trigger final(self).runs@[i]]
                0 <= i < final(self).runs@.len() ==> {
                    let before = old(self).runs@[i];
                    match before.state {
                        AnalysisRunState::Running { latest_progress, .. } => if before.id == id {
                            final(self).runs@[i] == (AnalysisRun {
                                state: AnalysisRunState::<S>::Running {
                                    latest_progress,
                                    cancel_requested: true,
                                },
                                ..before
                            })
                        } else {
                            final(self).runs@[i] == before
                        },
                        _ => final(self).runs@[i] == before,
                    }
                },
    {
        let ghost start = self.runs@;
        match self.find(id) {
            Some(i) => {
                assert(position_of(start, id, i as int));
                proof {
                    assert forall|k: int| #[trigger] position_of(start, id, k) implies k == i by {
                        if k < i {
                            assert(start[k].id > start[i as int].id);
                        } else if k > i {
                            assert(start[i as int].id > start[k].id);
                        }
                    }
                    assert forall|k: int| 0 <= k < start.len() && k != i implies (
                    #[trigger] start[k]).id != id by {
                        if start[k].id == id {
                            assert(position_of(start, id, k));
                        }
                    }
                }
                let (running, shown) = match &self.runs[i].state {
                    AnalysisRunState::Running { latest_progress, .. } => (true, *latest_progress),
                    _ => (false, None),
                };
                if running {
                    self.runs[i].state = AnalysisRunState::Running {
                        latest_progress: shown,
                        cancel_requested: true,
                    };
                }
                running
            },
            None => {
                proof {
                    assert forall|k: int| 0 <= k < start.len() implies (#[trigger] start[k]).id
                        != id by {
                        if start[k].id == id {
                            assert(position_of(start, id, k));
                        }
                    }
                }
                false
            },
        }
    }

    /// Whether a run stays in the list when the one with `id` is removed.
    pub open spec fn stays(run: AnalysisRun<S>, id: u64) -> bool {
        run.id != id || run.state is Running
    }

    /// Takes a run out of the list, unless it is still running.
    pub fn remove_run(&mut self, id: u64)
        requires
            old(self).wf(),
        ensures
            final(self).wf(),
            final(self).panel_open == old(self).panel_open,
            final(self).dialog == old(self).dialog,
            final(self).next_run_id == old(self).next_run_id,
            final(self).runs@ == old(self).runs@.filter(|run: AnalysisRun<S>| Self::stays(run, id)),
    {
        let ghost start = self.runs@;
        let ghost keep = |run: AnalysisRun<S>| Self::stays(run, id);
        proof {
            reveal(Seq::filter);
        }
        let mut i: usize = 0;
        assert(start.take(0) =~= Seq::<AnalysisRun<S>>::empty());
        assert(self.runs@.skip(0) =~= start.skip(0));
        let ghost mut seen: int = 0;
        while i < self.runs.len()
            invariant
                0 <= i <= self.runs@.len(),
                0 <= seen <= start.len(),
                keep == (|run: AnalysisRun<S>| Self::stays(run, id)),
                self.panel_open == old(self).panel_open,
                self.dialog == old(self).dialog,
                self.next_run_id == old(self).next_run_id,
                self.runs@.take(i as int) == start.take(seen).filter(keep),
                self.runs@.skip(i as int) == start.skip(seen),
            decreases self.runs@.len() - i,
        {
            proof {
                reveal(Seq::filter);
                assert(self.runs@.skip(i as int).len() == start.skip(seen).len());
                assert(self.runs@[i as int] == self.runs@.skip(i as int)[0]);
                assert(start[seen] == start.skip(seen)[0]);
                assert(start.take(seen + 1).drop_last() =~= start.take(seen));
                assert(start.take(seen + 1).last() == start[seen]);
                assert(start.skip(seen + 1) =~= start.skip(seen).skip(1));
            }
            let ghost before = self.runs@;
            if self.runs[i].id != id || self.runs[i].is_running() {
                i = i + 1;
                assert(self.runs@.take(i as int) =~= before.take(i - 1).push(before[i - 1]));
                assert(self.runs@.skip(i as int) =~= before.skip(i - 1).skip(1));
            } else {
                self.runs.remove(i);
                assert(self.runs@.take(i as int) =~= before.take(i as int));
                assert(self.runs@.skip(i as int) =~= before.skip(i as int).skip(1));
            }
            proof {
                seen = seen + 1;
            }
        }
        proof {
            assert(self.runs@.skip(i as int).len() == 0);
            assert(start.take(seen) =~= start);
            assert(self.runs@.take(i as int) =~= self.runs@);
            filter_keeps_order(start, keep);
        }
    }
}

/// A list that is filtered keeps the order of its numbers.
proof fn filter_keeps_order<S>(runs: Seq<AnalysisRun<S>>, keep: spec_fn(AnalysisRun<S>) -> bool)
    requires
        forall|i: int, j: int|
            0 <= i < j < runs.len() ==> #[trigger] runs[i].id > #[trigger] runs[j].id,
    ensures
        forall|i: int, j: int|
            0 <= i < j < runs.filter(keep).len() ==> #[trigger] runs.filter(keep)[i].id
                > #[trigger] runs.filter(keep)[j].id,
        forall|i: int| 0 <= i < runs.filter(keep).len() ==> runs.contains(
            #[trigger] runs.filter(keep)[i],
        ),
    decreases runs.len(),
{
    reveal(Seq::filter);
    if runs.len() > 0 {
        let rest = runs.drop_last();
        filter_keeps_order(rest, keep);
        let kept = runs.filter(keep);
        let before = rest.filter(keep);
        assert forall|i: int| 0 <= i < kept.len() implies runs.contains(#[trigger] kept[i]) by {
            if i < before.len() {
                assert(rest.contains(before[i]));
                let k = choose|k: int| 0 <= k < rest.len() && rest[k] == before[i];
                assert(runs[k] == kept[i]);
            } else {
                assert(kept[i] == runs[runs.len() - 1]);
            }
        }
        assert forall|i: int, j: int| 0 <= i < j < kept.len() implies #[trigger] kept[i].id
            > #[trigger] kept[j].id by {
            if j < before.len() {
                assert(before[i].id > before[j].id);
            } else {
                assert(rest.contains(before[i]));
                let k = choose|k: int| 0 <= k < rest.len() && rest[k] == before[i];
                assert(runs[k].id > runs[runs.len() - 1].id);
            }
        }
    }
}

/// A file that a run can take as its input: its path, its name, its folder and,
/// where they are known, the times of its first and last event.
#[derive(Debug)]
pub struct InputFile {
    pub path: String,
    pub name: Option<String>,
    pub parent: String,
    pub timeline: Option<(u64, u64)>,
}

impl InputFile {
    pub open spec fn name_text(self) -> Option<Seq<char>> {
        match self.name {
            Some(name) => Some(name@),
            None => None,
        }
    }
}

/// The same texts in a list of their own.
pub fn copied_texts(list: &Vec<String>) -> (out: Vec<String>)
    ensures
        texts_of(out@) == texts_of(list@),
        out@.len() == list@.len(),
{
    let mut out: Vec<String> = Vec::new();
    let mut i: usize = 0;
    while i < list.len()
        invariant
            i <= list@.len(),
            out@.len() == i,
            forall|k: int| 0 <= k < i ==> (#[trigger] out@[k])@ == list@[k]@,
        decreases list@.len() - i,
    {
        out.push(list[i].clone());
        i = i + 1;
    }
    assert(texts_of(out@) =~= texts_of(list@));
    out
}

/// A run that was to be cancelled is never announced as failed.
pub proof fn cancelled_runs_do_not_fail<S>(run: AnalysisRun<S>, report: RunReport<S>)
    requires
        run.state matches AnalysisRunState::Running { cancel_requested, .. } && cancel_requested,
    ensures
        !(event_of(run, report) matches Some(RunEventView::Failed(_, _))),
{
}

/// A run that has ended stays as it is, whatever comes in later, and nothing
/// more is announced of it.
pub proof fn ended_runs_are_final<S>(
    run: AnalysisRun<S>,
    report: RunReport<S>,
    after: AnalysisRunState<S>,
)
    requires
        !(run.state is Running),
        state_follows(run.state, report, after),
    ensures
        after == run.state,
        event_of(run, report) is None,
{
}

pub open spec fn at_most_one_running<S>(runs: Seq<AnalysisRun<S>>) -> bool {
    forall|i: int, j: int|
        0 <= i < j < runs.len() ==> !(#[trigger] runs[i].state is Running
            && #[trigger] runs[j].state is Running)
}

/// One run executes at a time: a run that is put in front of a list in which
/// none runs is the only one that does, and no report sets another one going.
pub proof fn one_run_at_a_time<S>(
    idle: Seq<AnalysisRun<S>>,
    started: Seq<AnalysisRun<S>>,
    reports: Seq<RunReport<S>>,
    polled: Seq<AnalysisRun<S>>,
)
    requires
        forall|i: int| 0 <= i < idle.len() ==> !((#[trigger] idle[i]).state is Running),
        started.len() == idle.len() + 1,
        started.skip(1) == idle,
        reports.len() == started.len(),
        polled.len() == started.len(),
        forall|i: int|
            0 <= i < polled.len() ==> state_follows(
                started[i].state,
                reports[i],
                (#[trigger] polled[i]).state,
            ),
    ensures
        at_most_one_running(started),
        at_most_one_running(polled),
{
    assert forall|i: int| 1 <= i < started.len() implies !((#[trigger] started[i]).state
        is Running) by {
        assert(started.skip(1)[i - 1] == started[i]);
    }
}

// ---------------------------------------------------------------------------
// The cards of the list
// ---------------------------------------------------------------------------
impl<S> AnalysisRun<S> {
    /// The line below a run's name.
    pub open spec fn summary_line(self, input_name: Seq<char>) -> Seq<char> {
        input_name + " \u{00B7} "@ + self.range_label@ + " \u{00B7} "@ + self.window_label@
            + " \u{00B7} "@ + decimal(self.plugin_names@.len()) + " plugin(s)"@
    }

    /// `input_name` is the name of the input file, or its path where it has
    /// no name.
    pub fn summary_text(&self, input_name: &str) -> (out: String)
        ensures
            out@ == self.summary_line(input_name@),
    {
        let mut out = String::new();
        out.append(input_name);
        out.append(" \u{00B7} ");
        out.append(self.range_label.as_str());
        out.append(" \u{00B7} ");
        out.append(self.window_label.as_str());
        out.append(" \u{00B7} ");
        push_decimal(&mut out, self.plugin_names.len() as u64);
        out.append(" plugin(s)");
        assert(out@ =~= self.summary_line(input_name@));
        out
    }

    /// What a run's card says of its state.
    pub open spec fn state_line(self) -> Seq<char> {
        match self.state {
            AnalysisRunState::Running { latest_progress, .. } => match latest_progress {
                Some(progress) => decimal(progress.processed_windows as nat) + "/"@ + decimal(
                    at_least_one(progress.total_windows) as nat,
                ) + " windows"@,
                None => "starting\u{2026}"@,
            },
            AnalysisRunState::Completed { summary } => decimal(summary.processed_windows as nat)
                + " window(s), "@ + decimal(summary.exported_files as nat) + " file(s)"@,
            AnalysisRunState::Failed(error) => shortened(error@, 120),
            AnalysisRunState::Cancelled => "Cancelled."@,
        }
    }

    pub fn state_text(&self) -> (out: String)
        ensures
            out@ == self.state_line(),
    {
        let mut out = String::new();
        match &self.state {
            AnalysisRunState::Running { latest_progress, .. } => {
                match latest_progress {
                    Some(progress) => {
                        push_decimal(&mut out, progress.processed_windows);
                        out.append("/");
                        push_decimal(
                            &mut out,
                            if progress.total_windows == 0 {
                                1
                            } else {
                                progress.total_windows
                            },
                        );
                        out.append(" windows");
                    },
                    None => out.append("starting\u{2026}"),
                }
            },
            AnalysisRunState::Completed { summary } => {
                push_decimal(&mut out, summary.processed_windows);
                out.append(" window(s), ");
                push_decimal(&mut out, summary.exported_files);
                out.append(" file(s)");
            },
            AnalysisRunState::Failed(error) => {
                out = truncate(error.as_str(), 120);
            },
            AnalysisRunState::Cancelled => out.append("Cancelled."),
        }
        assert(out@ =~= self.state_line());
        out
    }

    /// What a run's card offers: a running run can be cancelled only, a
    /// completed one be looked at, and every run that has ended be removed.
    pub fn offered_actions(&self) -> (out: (Vec<AnalysisPanelAction>, bool))
        ensures
            out.1 == (self.state is Running),
            out.0@ == (if self.state is Running {
                seq![]
            } else if self.state is Completed {
                seq![
                    AnalysisPanelAction::Remove(self.id),
                    AnalysisPanelAction::ViewResults(self.id),
                    AnalysisPanelAction::OpenFolder(self.id),
                ]
            } else {
                seq![AnalysisPanelAction::Remove(self.id)]
            }),
    {
        let mut actions: Vec<AnalysisPanelAction> = Vec::new();
        if self.is_running() {
            return (actions, true);
        }
        actions.push(AnalysisPanelAction::Remove(self.id));
        if let AnalysisRunState::Completed { .. } = &self.state {
            actions.push(AnalysisPanelAction::ViewResults(self.id));
            actions.push(AnalysisPanelAction::OpenFolder(self.id));
        }
        (actions, false)
    }
}

// ---------------------------------------------------------------------------
// Laws of the dialog and the runs
// ---------------------------------------------------------------------------
/// The selected plugins are run, and no others.
pub proof fn selected_plugins_are_named(plugins: Seq<PluginChoice>)
    ensures
        ({
            let names = selected_names(plugins);
            &&& names.len() <= plugins.len()
            &&& forall|i: int|
                0 <= i < plugins.len() && (#[trigger] plugins[i]).selected ==> names.contains(
                    plugins[i].name@,
                )
            &&& forall|k: int|
                0 <= k < names.len() ==> exists|i: int|
                    0 <= i < plugins.len() && (#[trigger] plugins[i]).selected && plugins[i].name@
                        == #[trigger] names[k]
            &&& (forall|i: int| 0 <= i < plugins.len() ==> !(#[trigger] plugins[i]).selected)
                ==> names.len() == 0
            &&& (forall|i: int| 0 <= i < plugins.len() ==> (#[trigger] plugins[i]).selected)
                ==> names.len() == plugins.len() && forall|i: int|
                0 <= i < plugins.len() ==> #[trigger] names[i] == plugins[i].name@
        }),
    decreases plugins.len(),
{
    if plugins.len() > 0 {
        let rest = plugins.drop_last();
        selected_plugins_are_named(rest);
        let before = selected_names(rest);
        let names = selected_names(plugins);
        assert(forall|i: int| 0 <= i < rest.len() ==> #[trigger] rest[i] == plugins[i]);
        assert(plugins.last() == plugins[plugins.len() - 1]);
        assert forall|i: int|
            0 <= i < plugins.len() && (#[trigger] plugins[i]).selected implies names.contains(
            plugins[i].name@,
        ) by {
            if i < rest.len() {
                assert(rest[i].selected);
                assert(before.contains(rest[i].name@));
                let k = choose|k: int| 0 <= k < before.len() && before[k] == rest[i].name@;
                assert(names[k] == before[k]);
            } else {
                assert(names[before.len() as int] == plugins[i].name@);
            }
        }
        assert forall|k: int| 0 <= k < names.len() implies exists|i: int|
            0 <= i < plugins.len() && (#[trigger] plugins[i]).selected && plugins[i].name@
                == #[trigger] names[k] by {
            if k < before.len() {
                let i = choose|i: int|
                    0 <= i < rest.len() && (#[trigger] rest[i]).selected && rest[i].name@
                        == before[k];
                assert(plugins[i].name@ == names[k]);
            } else {
                assert(plugins[plugins.len() - 1].name@ == names[k]);
            }
        }
        if forall|i: int| 0 <= i < plugins.len() ==> (#[trigger] plugins[i]).selected {
            assert forall|i: int| 0 <= i < rest.len() implies (#[trigger] rest[i]).selected by {
                assert(plugins[i].selected);
            }
        }
        if forall|i: int| 0 <= i < plugins.len() ==> !(#[trigger] plugins[i]).selected {
            assert forall|i: int| 0 <= i < rest.len() implies !(#[trigger] rest[i]).selected by {
                assert(!plugins[i].selected);
            }
        }
    }
}

/// A list of texts has the separator between two texts, and nowhere else.
pub proof fn separators_stand_between(list: Seq<Seq<char>>, text: Seq<char>, separator: Seq<char>)
    ensures
        joined(seq![text], separator) == text,
        list.len() > 0 ==> joined(list.push(text), separator) == joined(list, separator) + separator
            + text,
        joined(seq![], separator).len() == 0,
{
    assert(list.push(text).drop_last() =~= list);
}

/// A whole range covers the file and is called so; another one is called by
/// its two ends.
pub proof fn ranges_are_named_by_their_ends(start: u64, end: u64)
    ensures
        range_text(None, None) == "whole file"@,
        range_text(Some(start), Some(end)) == "["@ + decimal(start as nat) + ", "@ + decimal(
            end as nat,
        ) + ") us"@,
        range_text(Some(start), None) == "["@ + decimal(start as nat) + ", "@ + "end"@ + ") us"@,
        range_text(None, Some(end)) == "["@ + "start"@ + ", "@ + decimal(end as nat) + ") us"@,
{
}

/// Windows of whole milliseconds are named by these, others by microseconds.
pub proof fn windows_are_named_by_their_length(us: u64, ms: u64)
    ensures
        us == ms * 1_000 ==> window_text(us) == decimal(ms as nat) + " ms windows"@,
        us % 1_000 != 0 ==> window_text(us) == decimal(us as nat) + " us windows"@,
{
}

/// The windows of a run just cover its range, and there is one at least.
pub proof fn run_windows_just_cover_the_range(dialog: AnalysisDialog)
    requires
        dialog.timeline is Ready,
        dialog.window_ms > 0,
        dialog.window_ms * 1_000 <= u64::MAX,
    ensures
        ({
            let span = if dialog.use_custom_range {
                micros(
                    minus_of(dialog.end_seconds, dialog.start_seconds).larger_of(
                        Real64 { bits: 0 },
                    ),
                )
            } else {
                micros(Real64 { bits: dialog.timeline_end() as u64 })
            };
            let window = dialog.window_ms * 1_000;
            dialog.windows() matches Some(count) && count >= 1 && count * window >= span && (count
                > 1 ==> (count - 1) * window < span)
        }),
        dialog.timeline_end() == seconds_of(
            if dialog.timeline->Ready_last_us >= dialog.timeline->Ready_first_us {
                (dialog.timeline->Ready_last_us - dialog.timeline->Ready_first_us) as nat
            } else {
                0
            },
        ),
{
    let count = dialog.windows()->0;
    let window = (dialog.window_ms * 1_000) as int;
    let span = if dialog.use_custom_range {
        micros(minus_of(dialog.end_seconds, dialog.start_seconds).larger_of(Real64 { bits: 0 }))
    } else {
        micros(Real64 { bits: dialog.timeline_end() as u64 })
    };
    let n = span + window - 1;
    let w = n / window;
    assert(w * window <= n < w * window + window) by (nonlinear_arith)
        requires
            window > 0,
            w == n / window,
    ;
    assert((w - 1) * window == w * window - window) by (nonlinear_arith);
    if w < 1 {
        assert(w * window <= 0) by (nonlinear_arith)
            requires
                w < 1,
                window > 0,
        ;
        assert(1 * window >= span);
    }
}

/// A run over a part of a file begins that part after the first event, and
/// ends where the part does. A run over the whole file has no bounds.
pub proof fn runs_keep_to_their_range(dialog: AnalysisDialog)
    ensures
        !dialog.use_custom_range ==> dialog.request_range() == (None::<u64>, None::<u64>),
        !(dialog.timeline is Ready) ==> dialog.request_range() == (None::<u64>, None::<u64>),
        dialog.use_custom_range && dialog.timeline is Ready && dialog.timeline->Ready_first_us
            + micros(dialog.start_seconds) <= u64::MAX ==> dialog.request_range().0 == Some(
            (dialog.timeline->Ready_first_us + micros(dialog.start_seconds)) as u64,
        ),
        dialog.use_custom_range && dialog.timeline is Ready && dialog.end_seconds.lt(
            Real64 { bits: dialog.timeline_end() as u64 },
        ) && dialog.timeline->Ready_first_us + micros(dialog.end_seconds) <= u64::MAX
            ==> dialog.request_range().1 == Some(
            (dialog.timeline->Ready_first_us + micros(dialog.end_seconds)) as u64,
        ),
        dialog.use_custom_range && dialog.timeline is Ready && dialog.timeline->Ready_last_us
            < u64::MAX && (Real64 { bits: dialog.timeline_end() as u64 }).le(dialog.end_seconds)
            ==> dialog.request_range().1 == Some((dialog.timeline->Ready_last_us + 1) as u64),
{
}

/// A run can be started once a file, a name, a folder and a plugin are chosen,
/// the file is read, a chosen range goes forward, and the folder is new.
pub proof fn complete_requests_have_no_problem(
    dialog: AnalysisDialog,
    output_exists: bool,
    separator: char,
)
    ensures
        dialog.request_problem(output_exists, separator) is None <==> {
            &&& dialog.input_path is Some
            &&& !(dialog.timeline is Probing)
            &&& !is_blank(dialog.run_name@)
            &&& !is_blank(dialog.output_parent@)
            &&& exists|i: int|
                0 <= i < dialog.plugins@.len() && (#[trigger] dialog.plugins@[i]).selected
            &&& dialog.use_custom_range ==> dialog.timeline is Ready && !dialog.end_seconds.le(
                dialog.start_seconds,
            )
            &&& !output_exists
        },
        dialog.input_path is None ==> dialog.request_problem(output_exists, separator) == Some(
            "choose an input file"@,
        ),
{
    selected_plugins_are_named(dialog.plugins@);
    let names = selected_names(dialog.plugins@);
    if names.len() > 0 {
        assert(names[0] == names[0]);
    }
    if exists|i: int| 0 <= i < dialog.plugins@.len() && (#[trigger] dialog.plugins@[i]).selected {
        let i = choose|i: int|
            0 <= i < dialog.plugins@.len() && (#[trigger] dialog.plugins@[i]).selected;
        assert(names.contains(dialog.plugins@[i].name@));
    }
}

/// A running run that succeeds is completed with its summary and reported as
/// finished; one that fails keeps its error and is reported with it; while it
/// is pending, nothing is reported and its newest progress is kept.
pub proof fn runs_end_as_reported<S>(
    run: AnalysisRun<S>,
    report: RunReport<S>,
    after: AnalysisRunState<S>,
)
    requires
        run.state is Running,
        state_follows(run.state, report, after),
    ensures
        report.outcome matches RunOutcome::Succeeded(summary) ==> after == (
        AnalysisRunState::<S>::Completed { summary }) && event_of(run, report) == Some(
            RunEventView::Finished(run.id),
        ),
        report.outcome is Pending ==> after is Running && event_of(run, report) is None && (
        report.progress is Some ==> after->latest_progress == report.progress) && (
        report.progress is None ==> after->latest_progress == run.state->latest_progress)
            && after->cancel_requested == run.state->cancel_requested,
        !run.state->cancel_requested ==> (report.outcome matches RunOutcome::Failed(error) ==> (
        after matches AnalysisRunState::Failed(text) && text@ == error@) && event_of(run, report)
            == Some(RunEventView::Failed(run.id, error@))),
        run.state->cancel_requested && (report.outcome is Failed || report.outcome is Ended)
            ==> after is Cancelled && event_of(run, report) is None,
        !run.state->cancel_requested && report.outcome is Ended ==> after is Failed && event_of(
            run,
            report,
        ) == Some(RunEventView::Failed(run.id, "analysis task ended unexpectedly"@)),
{
}

/// Only the run that is to be removed leaves the list, and no running one does.
pub proof fn running_runs_stay<S>(run: AnalysisRun<S>, id: u64)
    ensures
        AnalysisRunsState::<S>::stays(run, id) <==> run.id != id || run.state is Running,
{
}

/// The events of several runs are those that their reports lead to, in the
/// order of the runs.
pub proof fn events_follow_the_runs<S>(
    runs: Seq<AnalysisRun<S>>,
    reports: Seq<RunReport<S>>,
    n: nat,
    r: int,
)
    requires
        0 <= r < n,
    ensures
        event_of(runs[r], reports[r]) matches Some(event) ==> events_of(
            runs,
            reports,
            r as nat,
        ).len() < events_of(runs, reports, n).len() && events_of(runs, reports, n)[events_of(
            runs,
            reports,
            r as nat,
        ).len() as int] == event,
        events_of(runs, reports, (r + 1) as nat).len() - events_of(runs, reports, r as nat).len()
            == (if event_of(runs[r], reports[r]) is Some {
            1int
        } else {
            0
        }),
    decreases n,
{
    if r < n - 1 {
        events_follow_the_runs(runs, reports, (n - 1) as nat, r);
    }
}

/// A run that has ended leads to no more events, and one that still runs leads
/// to one when it succeeds, under its own number.
pub proof fn ended_runs_are_silent<S>(run: AnalysisRun<S>, report: RunReport<S>)
    ensures
        !(run.state is Running) ==> event_of(run, report) is None,
        report.outcome is Pending ==> event_of(run, report) is None,
        run.state is Running && report.outcome is Succeeded ==> event_of(run, report) == Some(
            RunEventView::Finished(run.id),
        ),
        run.state matches AnalysisRunState::Running { cancel_requested: true, .. }
            && !(report.outcome is Succeeded) ==> event_of(run, report) is None,
{
}

/// A run that goes on or ends keeps its number, its name and what it was asked
/// for.
pub proof fn runs_keep_their_request<S>(a: AnalysisRun<S>, b: AnalysisRun<S>)
    ensures
        same_run(a, b) <==> a.id == b.id && a.name == b.name && a.input_path == b.input_path
            && a.output_dir == b.output_dir && a.range_label == b.range_label && a.window_label
            == b.window_label && a.plugin_names == b.plugin_names,
{
}

} // verus!
