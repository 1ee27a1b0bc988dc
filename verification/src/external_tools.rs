//! Streaming of preview frames to an external tool: status, loss accounting,
//! the frame protocol of the ImageJ bridge and the dialog that drives it.
use crate::binary64::Real64;
use crate::rounding::{percent, percent_of, point_text, push_point, to_units, units_of};
use crate::text::{decimal, push_decimal};
use crate::whole_text::{push_shortest, shortest_text};
use vstd::prelude::*;

verus! {

pub const BUNDLED_IMAGEJ_PLUGIN_JAR_NAME: &'static str = "AugurBridge.jar";

pub const DEFAULT_IMAGEJ_BRIDGE_PORT: u16 = 57_294;

/// How many frames wait between the preview and the bridge's worker.
pub const BRIDGE_QUEUE_LEN: usize = 2;

#[derive(Debug, PartialEq, Eq)]
pub enum ExternalToolStatus {
    Disconnected,
    Connecting,
    Streaming,
    Error(String),
}

/// The text that names a status.
pub open spec fn status_label(status: ExternalToolStatus) -> Seq<char> {
    match status {
        ExternalToolStatus::Disconnected => "Disconnected"@,
        ExternalToolStatus::Connecting => "Connecting"@,
        ExternalToolStatus::Streaming => "Streaming"@,
        ExternalToolStatus::Error(err) => "Error: "@ + err@,
    }
}

impl ExternalToolStatus {
    pub fn label(&self) -> (out: String)
        ensures
            out@ == status_label(*self),
    {
        match self {
            ExternalToolStatus::Disconnected => "Disconnected".to_owned(),
            ExternalToolStatus::Connecting => "Connecting".to_owned(),
            ExternalToolStatus::Streaming => "Streaming".to_owned(),
            ExternalToolStatus::Error(err) => {
                let mut out = "Error: ".to_owned();
                out.append(err.as_str());
                out
            },
        }
    }

    pub fn is_streaming(&self) -> (out: bool)
        ensures
            out == (*self is Streaming),
    {
        match self {
            ExternalToolStatus::Streaming => true,
            _ => false,
        }
    }
}

/// How much of the preview series an external tool received.
///
/// A bridge is a sampled preview, so it may drop frames under back-pressure,
/// but the loss is counted, never silent.
#[derive(Debug, Clone, Copy, PartialEq, Eq, Structural)]
pub struct ExternalToolThroughput {
    pub frames_offered: u64,
    pub frames_dropped: u64,
}

impl Default for ExternalToolThroughput {
    fn default() -> (out: Self)
        ensures
            out.frames_offered == 0,
            out.frames_dropped == 0,
    {
        ExternalToolThroughput { frames_offered: 0, frames_dropped: 0 }
    }
}

/// The share of dropped frames in percent, with one decimal.
pub open spec fn loss_text(offered: nat, dropped: nat) -> Seq<char> {
    if offered == 0 {
        "0.0"@
    } else {
        let p = percent_of(dropped, offered);
        point_text(units_of(p.0, p.1, 10), 10, 1)
    }
}

impl ExternalToolThroughput {
    /// No more frames are lost than were offered.
    pub open spec fn wf(self) -> bool {
        self.frames_dropped <= self.frames_offered
    }

    pub open spec fn delivered(self) -> nat {
        if self.frames_offered >= self.frames_dropped {
            (self.frames_offered - self.frames_dropped) as nat
        } else {
            0
        }
    }

    pub open spec fn text(self) -> Seq<char> {
        if self.frames_dropped == 0 {
            decimal(self.frames_offered as nat) + " frames sent"@
        } else {
            decimal(self.delivered()) + " frames sent \u{00B7} "@ + decimal(
                self.frames_dropped as nat,
            ) + " dropped ("@ + loss_text(self.frames_offered as nat, self.frames_dropped as nat)
                + "%)"@
        }
    }

    pub fn frames_delivered(&self) -> (out: u64)
        ensures
            out == self.delivered(),
    {
        if self.frames_offered >= self.frames_dropped {
            self.frames_offered - self.frames_dropped
        } else {
            0
        }
    }

    pub fn has_gaps(&self) -> (out: bool)
        ensures
            out == (self.frames_dropped > 0),
    {
        self.frames_dropped > 0
    }

    /// The sent count and, where the series has gaps, the dropped count with
    /// its share.
    pub fn label(&self) -> (out: String)
        ensures
            out@ == self.text(),
    {
        let mut out = String::new();
        if !self.has_gaps() {
            push_decimal(&mut out, self.frames_offered);
            out.append(" frames sent");
            assert(out@ =~= self.text());
            return out;
        }
        push_decimal(&mut out, self.frames_delivered());
        out.append(" frames sent \u{00B7} ");
        push_decimal(&mut out, self.frames_dropped);
        out.append(" dropped (");
        if self.frames_offered == 0 {
            out.append("0.0");
        } else {
            let share = percent(self.frames_dropped, self.frames_offered);
            push_point(&mut out, to_units(share, 10), 10, 1);
        }
        out.append("%)");
        assert(out@ =~= self.text());
        out
    }
}

/// Every offered frame is either delivered or counted as dropped.
pub proof fn every_frame_is_accounted_for(t: ExternalToolThroughput)
    requires
        t.wf(),
    ensures
        t.delivered() + t.frames_dropped == t.frames_offered,
{
}

// ---------------------------------------------------------------------------
// The frame protocol
// ---------------------------------------------------------------------------
/// The line in front of a frame's pixels.
pub open spec fn header_text(width: u16, height: u16, nm_per_pixel: Real64) -> Seq<char> {
    "frame "@ + decimal(width as nat) + " "@ + decimal(height as nat) + " "@ + shortest_text(
        nm_per_pixel,
    ) + "\n"@
}

pub fn frame_header(width: u16, height: u16, nm_per_pixel: Real64) -> (out: String)
    ensures
        out@ == header_text(width, height, nm_per_pixel),
{
    let mut out = "frame ".to_owned();
    push_decimal(&mut out, width as u64);
    out.append(" ");
    push_decimal(&mut out, height as u64);
    out.append(" ");
    push_shortest(&mut out, nm_per_pixel);
    out.append("\n");
    out
}

/// The 16-bit number at position `i` of little-endian bytes.
pub open spec fn pixel_in(bytes: Seq<u8>, i: int) -> int {
    bytes[2 * i] + 256 * bytes[2 * i + 1]
}

/// The pixels as little-endian bytes, two for each.
pub fn pixel_bytes(pixels: &Vec<u16>) -> (out: Vec<u8>)
    ensures
        out@.len() == 2 * pixels@.len(),
        forall|i: int| 0 <= i < pixels@.len() ==> pixel_in(out@, i) == #[trigger] pixels@[i],
{
    let mut out: Vec<u8> = Vec::new();
    let mut i: usize = 0;
    while i < pixels.len()
        invariant
            i <= pixels@.len(),
            out@.len() == 2 * i,
            forall|k: int| 0 <= k < i ==> pixel_in(out@, k) == #[trigger] pixels@[k],
        decreases pixels@.len() - i,
    {
        let px: u16 = pixels[i];
        let ghost before = out@;
        out.push((px % 256) as u8);
        out.push((px / 256) as u8);
        assert forall|k: int| 0 <= k < i + 1 implies pixel_in(out@, k) == #[trigger] pixels@[k] by {
            if k < i {
                assert(pixel_in(out@, k) == pixel_in(before, k));
            }
        }
        i = i + 1;
    }
    out
}

/// A frame's bytes determine its pixels: equal bytes come from equal pixels.
pub proof fn pixel_bytes_are_unambiguous(bytes: Seq<u8>, a: Seq<u16>, b: Seq<u16>)
    requires
        bytes.len() == 2 * a.len(),
        bytes.len() == 2 * b.len(),
        forall|i: int| 0 <= i < a.len() ==> pixel_in(bytes, i) == #[trigger] a[i],
        forall|i: int| 0 <= i < b.len() ==> pixel_in(bytes, i) == #[trigger] b[i],
    ensures
        a == b,
{
    assert forall|i: int| 0 <= i < a.len() implies a[i] == b[i] by {
        assert(pixel_in(bytes, i) == a[i]);
        assert(pixel_in(bytes, i) == b[i]);
    }
    assert(a =~= b);
}

/// A command of the text protocol, as it goes over the wire.
pub fn text_command(command: &str) -> (out: String)
    ensures
        out@ == command@ + "\n"@,
{
    let mut out = String::new();
    out.append(command);
    out.append("\n");
    assert(out@ =~= command@ + "\n"@);
    out
}

// ---------------------------------------------------------------------------
// The bridge
// ---------------------------------------------------------------------------
/// What the bridge's worker met.
#[derive(Debug, PartialEq, Eq)]
pub enum BridgeEvent {
    Connected,
    ConnectFailed(String),
    HandshakeFailed(String),
    FrameSent,
    SendFailed(String),
    QueueClosed,
}

/// What the bridge's worker does next.
#[derive(Debug, Clone, Copy, PartialEq, Eq, Structural)]
pub enum BridgeStep {
    Handshake,
    NextFrame,
    Stop,
}

/// The connection to ImageJ, without the socket.
#[derive(Debug, PartialEq, Eq)]
pub struct ImageJBridge {
    pub host: String,
    pub port: u16,
    pub status: ExternalToolStatus,
    pub connected: bool,
    pub throughput: ExternalToolThroughput,
}

impl ImageJBridge {
    pub open spec fn wf(self) -> bool {
        self.throughput.wf()
    }

    pub fn new(host: String, port: u16) -> (out: Self)
        ensures
            out.wf(),
            out.host == host,
            out.port == port,
            out.status is Disconnected,
            !out.connected,
            out.throughput.frames_offered == 0,
            out.throughput.frames_dropped == 0,
    {
        ImageJBridge {
            host,
            port,
            status: ExternalToolStatus::Disconnected,
            connected: false,
            throughput: ExternalToolThroughput::default(),
        }
    }

    /// Starts a connection; tells whether a worker has to be started. A bridge
    /// that is connected already stays as it is.
    pub fn connect(&mut self) -> (start: bool)
        ensures
            start == !old(self).connected,
            !start ==> *final(self) == *old(self),
            start ==> *final(self) == (ImageJBridge {
                status: ExternalToolStatus::Connecting,
                connected: true,
                ..*old(self)
            }),
    {
        if self.connected {
            return false;
        }
        self.status = ExternalToolStatus::Connecting;
        self.connected = true;
        true
    }

    /// Closes the connection.
    pub fn disconnect(&mut self)
        ensures
            *final(self) == (ImageJBridge {
                status: ExternalToolStatus::Disconnected,
                connected: false,
                ..*old(self)
            }),
    {
        self.connected = false;
        self.status = ExternalToolStatus::Disconnected;
    }

    /// Takes in what the worker met, and tells it how to go on.
    pub fn worker_event(&mut self, event: BridgeEvent) -> (step: BridgeStep)
        ensures
            final(self).host == old(self).host,
            final(self).port == old(self).port,
            final(self).connected == old(self).connected,
            final(self).throughput == old(self).throughput,
            match event {
                BridgeEvent::Connected => final(self).status is Streaming && step
                    == BridgeStep::Handshake,
                BridgeEvent::ConnectFailed(err) => step == BridgeStep::Stop && (
                final(self).status matches ExternalToolStatus::Error(text) && text@
                    == "connect failed: "@ + err@),
                BridgeEvent::HandshakeFailed(err) => step == BridgeStep::Stop && (
                final(self).status matches ExternalToolStatus::Error(text) && text@
                    == "handshake failed: "@ + err@),
                BridgeEvent::FrameSent => final(self).status == old(self).status && step
                    == BridgeStep::NextFrame,
                BridgeEvent::SendFailed(err) => step == BridgeStep::Stop && (
                final(self).status matches ExternalToolStatus::Error(text) && text@
                    == "send frame failed: "@ + err@),
                BridgeEvent::QueueClosed => final(self).status is Disconnected && step
                    == BridgeStep::Stop,
            },
    {
        match event {
            BridgeEvent::Connected => {
                self.status = ExternalToolStatus::Streaming;
                BridgeStep::Handshake
            },
            BridgeEvent::ConnectFailed(err) => {
                let mut text = "connect failed: ".to_owned();
                text.append(err.as_str());
                self.status = ExternalToolStatus::Error(text);
                BridgeStep::Stop
            },
            BridgeEvent::HandshakeFailed(err) => {
                let mut text = "handshake failed: ".to_owned();
                text.append(err.as_str());
                self.status = ExternalToolStatus::Error(text);
                BridgeStep::Stop
            },
            BridgeEvent::FrameSent => BridgeStep::NextFrame,
            BridgeEvent::SendFailed(err) => {
                let mut text = "send frame failed: ".to_owned();
                text.append(err.as_str());
                self.status = ExternalToolStatus::Error(text);
                BridgeStep::Stop
            },
            BridgeEvent::QueueClosed => {
                self.status = ExternalToolStatus::Disconnected;
                BridgeStep::Stop
            },
        }
    }

    /// Counts a frame that was offered to the worker's queue; one that the
    /// queue refused counts as dropped. Without a connection nothing is
    /// offered.
    pub fn send_frame(&mut self, queued: bool) -> (out: Result<(), String>)
        requires
            old(self).wf(),
            old(self).throughput.frames_offered < u64::MAX,
        ensures
            final(self).wf(),
            out is Ok <==> old(self).connected,
            out matches Err(text) ==> text@ == "ImageJ bridge is not connected"@ && *final(self)
                == *old(self),
            out is Ok ==> *final(self) == (ImageJBridge {
                throughput: ExternalToolThroughput {
                    frames_offered: (old(self).throughput.frames_offered + 1) as u64,
                    frames_dropped: (old(self).throughput.frames_dropped + if queued {
                        0int
                    } else {
                        1
                    }) as u64,
                },
                ..*old(self)
            }),
    {
        if !self.connected {
            return Err("ImageJ bridge is not connected".to_owned());
        }
        self.throughput.frames_offered = self.throughput.frames_offered + 1;
        if !queued {
            self.throughput.frames_dropped = self.throughput.frames_dropped + 1;
        }
        Ok(())
    }

    /// Counts queued frames that the worker passed over for a newer one.
    pub fn frames_superseded(&mut self, count: u64)
        requires
            old(self).wf(),
            count <= old(self).throughput.delivered(),
        ensures
            final(self).wf(),
            *final(self) == (ImageJBridge {
                throughput: ExternalToolThroughput {
                    frames_dropped: (old(self).throughput.frames_dropped + count) as u64,
                    ..old(self).throughput
                },
                ..*old(self)
            }),
    {
        self.throughput.frames_dropped = self.throughput.frames_dropped + count;
    }
}

/// Of the frames that wait, the worker sends the newest; tells how many are
/// passed over.
pub fn newest_frame<T>(first: T, later: Vec<T>) -> (out: (T, u64))
    ensures
        out.0 == (if later@.len() == 0 {
            first
        } else {
            later@.last()
        }),
        out.1 == later@.len(),
{
    let skipped: u64 = later.len() as u64;
    let mut later = later;
    match later.pop() {
        Some(frame) => (frame, skipped),
        None => (first, skipped),
    }
}

// ---------------------------------------------------------------------------
// The dialog
// ---------------------------------------------------------------------------
#[derive(Debug, PartialEq, Eq)]
pub struct ImageJDialogState {
    pub open: bool,
    pub host: String,
    pub port: u16,
    pub error: Option<String>,
    pub info: Option<String>,
}

impl Default for ImageJDialogState {
    fn default() -> (out: Self)
        ensures
            !out.open,
            out.host@ == "127.0.0.1"@,
            out.port == DEFAULT_IMAGEJ_BRIDGE_PORT,
            out.error is None,
            out.info is None,
    {
        ImageJDialogState {
            open: false,
            host: "127.0.0.1".to_owned(),
            port: DEFAULT_IMAGEJ_BRIDGE_PORT,
            error: None,
            info: None,
        }
    }
}

/// The buttons of the dialog that were pressed in one pass.
#[derive(Debug, Clone, Copy, PartialEq, Eq, Structural)]
pub struct ImageJDialogRequests {
    pub connect: bool,
    pub disconnect: bool,
    pub save_plugin: bool,
}

#[derive(Debug, Clone, Copy, PartialEq, Eq, Structural)]
pub enum ImageJDialogAction {
    Disconnect,
    SavePlugin,
    Connect,
}

/// What the pressed buttons ask for, in the order in which it is done: a
/// connection never replaces a tool that is still attached.
pub open spec fn dialog_plan(requests: ImageJDialogRequests, attached: bool) -> Seq<
    ImageJDialogAction,
> {
    let first = if requests.disconnect {
        seq![ImageJDialogAction::Disconnect]
    } else {
        seq![]
    };
    let second = if requests.save_plugin {
        seq![ImageJDialogAction::SavePlugin]
    } else {
        seq![]
    };
    let third = if !requests.connect {
        seq![]
    } else if attached && !requests.disconnect {
        seq![ImageJDialogAction::Disconnect, ImageJDialogAction::Connect]
    } else {
        seq![ImageJDialogAction::Connect]
    };
    first + second + third
}

/// What the dialog says of a status.
pub open spec fn dialog_status_text(status: ExternalToolStatus) -> Seq<char> {
    match status {
        ExternalToolStatus::Disconnected => "Disconnected"@,
        ExternalToolStatus::Connecting => "Connecting..."@,
        ExternalToolStatus::Streaming => "Connected"@,
        ExternalToolStatus::Error(_) => "Error"@,
    }
}

pub fn dialog_status(status: &ExternalToolStatus) -> (out: &'static str)
    ensures
        out@ == dialog_status_text(*status),
{
    match status {
        ExternalToolStatus::Disconnected => "Disconnected",
        ExternalToolStatus::Connecting => "Connecting...",
        ExternalToolStatus::Streaming => "Connected",
        ExternalToolStatus::Error(_) => "Error",
    }
}

impl ImageJDialogState {
    /// The buttons that can be pressed: connecting without a tool,
    /// disconnecting with one.
    pub fn enabled_buttons(attached: bool) -> (out: (bool, bool))
        ensures
            out == (!attached, attached),
    {
        (!attached, attached)
    }

    /// The error to show: the dialog's own, else that of the connection.
    pub open spec fn shown_error(self, status: ExternalToolStatus) -> Option<Seq<char>> {
        match self.error {
            Some(text) => Some(text@),
            None => match status {
                ExternalToolStatus::Error(text) => Some(text@),
                _ => None,
            },
        }
    }

    pub fn error_text(&self, status: &ExternalToolStatus) -> (out: Option<String>)
        ensures
            match out {
                Some(text) => self.shown_error(*status) == Some(text@),
                None => self.shown_error(*status) is None,
            },
    {
        match &self.error {
            Some(text) => Some(text.clone()),
            None => match status {
                ExternalToolStatus::Error(text) => Some(text.clone()),
                _ => None,
            },
        }
    }

    /// Takes in the pressed buttons: clears the messages where there is
    /// anything to do, and lists what to do. Before a connection is made, they
    /// are cleared once more by `connecting`.
    pub fn begin(&mut self, requests: ImageJDialogRequests, attached: bool) -> (plan: Vec<
        ImageJDialogAction,
    >)
        ensures
            plan@ == dialog_plan(requests, attached),
            plan@.len() > 0 ==> *final(self) == (ImageJDialogState {
                error: None,
                info: None,
                ..*old(self)
            }),
            plan@.len() == 0 ==> *final(self) == *old(self),
    {
        let mut plan: Vec<ImageJDialogAction> = Vec::new();
        if requests.disconnect {
            plan.push(ImageJDialogAction::Disconnect);
        }
        if requests.save_plugin {
            plan.push(ImageJDialogAction::SavePlugin);
        }
        if requests.connect {
            if attached && !requests.disconnect {
                plan.push(ImageJDialogAction::Disconnect);
            }
            plan.push(ImageJDialogAction::Connect);
        }
        assert(plan@ =~= dialog_plan(requests, attached));
        if plan.len() > 0 {
            self.error = None;
            self.info = None;
        }
        plan
    }

    /// Reports the outcome of writing the plugin to the path that was picked.
    pub fn plugin_saved(&mut self, path: &str, outcome: Result<(), String>)
        ensures
            final(self).open == old(self).open,
            final(self).host == old(self).host,
            final(self).port == old(self).port,
            match outcome {
                Ok(_) => final(self).error == old(self).error && (final(self).info matches Some(
                    text,
                ) && text@ == "Saved "@ + BUNDLED_IMAGEJ_PLUGIN_JAR_NAME@ + " to "@ + path@),
                Err(err) => final(self).info == old(self).info && (final(self).error matches Some(
                    text,
                ) && text@ == "failed to save "@ + BUNDLED_IMAGEJ_PLUGIN_JAR_NAME@ + ": "@ + err@),
            },
    {
        match outcome {
            Ok(_) => {
                let mut text = "Saved ".to_owned();
                text.append(BUNDLED_IMAGEJ_PLUGIN_JAR_NAME);
                text.append(" to ");
                text.append(path);
                self.info = Some(text);
            },
            Err(err) => {
                let mut text = "failed to save ".to_owned();
                text.append(BUNDLED_IMAGEJ_PLUGIN_JAR_NAME);
                text.append(": ");
                text.append(err.as_str());
                self.error = Some(text);
            },
        }
    }

    /// A new connection is about to be made: what was reported before it is
    /// dropped.
    pub fn connecting(&mut self)
        ensures
            *final(self) == (ImageJDialogState { error: None, info: None, ..*old(self) }),
    {
        self.error = None;
        self.info = None;
    }

    /// Reports a connection that could not be started.
    pub fn connect_failed(&mut self, err: String)
        ensures
            *final(self) == (ImageJDialogState { error: Some(err), ..*old(self) }),
    {
        self.error = Some(err);
    }

    /// The line that stands in place of the preview while frames go to ImageJ.
    pub fn streaming_label(&self) -> (out: String)
        ensures
            out@ == "Streaming to ImageJ ("@ + self.host@ + ":"@ + decimal(self.port as nat) + ")"@,
    {
        let mut out = "Streaming to ImageJ (".to_owned();
        out.append(self.host.as_str());
        out.append(":");
        push_decimal(&mut out, self.port as u64);
        out.append(")");
        out
    }
}

/// After the dialog's actions a new connection is made only where no tool is
/// attached any more.
pub proof fn connecting_replaces_the_attached_tool(requests: ImageJDialogRequests, attached: bool)
    ensures
        requests.connect ==> dialog_plan(requests, attached).len() > 0 && dialog_plan(
            requests,
            attached,
        ).last() == ImageJDialogAction::Connect,
        requests.connect && attached ==> dialog_plan(requests, attached).contains(
            ImageJDialogAction::Disconnect,
        ),
{
    let plan = dialog_plan(requests, attached);
    if requests.connect && attached {
        if requests.disconnect {
            assert(plan[0] == ImageJDialogAction::Disconnect);
        } else {
            assert(plan[plan.len() - 2] == ImageJDialogAction::Disconnect);
        }
    }
}

/// The bytes of a pixel stand in the order of their weight, the low one first,
/// and pixels stand two bytes apart.
pub proof fn low_bytes_come_first(bytes: Seq<u8>, i: int)
    requires
        0 <= i,
        2 * i + 1 < bytes.len(),
    ensures
        pixel_in(bytes, i) % 256 == bytes[2 * i],
        pixel_in(bytes, i) / 256 == bytes[2 * i + 1],
        pixel_in(bytes.skip(2 * i), 0) == pixel_in(bytes, i),
{
}

/// The header of a frame names the width before the height: behind its first
/// word and a blank stand the digits of the width, behind another blank those
/// of the height.
pub proof fn headers_name_width_and_height(width: u16, height: u16, nm_per_pixel: Real64)
    ensures
        ({
            let text = header_text(width, height, nm_per_pixel);
            let w = decimal(width as nat).len() as int;
            let h = decimal(height as nat).len() as int;
            &&& text.len() >= 9 + w + h
            &&& text.subrange(0, 6) == seq!['f', 'r', 'a', 'm', 'e', ' ']
            &&& text.subrange(6, 6 + w) == decimal(width as nat)
            &&& text[6 + w] == ' '
            &&& text.subrange(7 + w, 7 + w + h) == decimal(height as nat)
            &&& text[7 + w + h] == ' '
            &&& text.subrange(8 + w + h, text.len() - 1) == shortest_text(nm_per_pixel)
            &&& text.last() == '\n'
        }),
{
    reveal_strlit("frame ");
    reveal_strlit(" ");
    reveal_strlit("\n");
    let text = header_text(width, height, nm_per_pixel);
    let w = decimal(width as nat).len() as int;
    let h = decimal(height as nat).len() as int;
    assert(text.subrange(0, 6) =~= seq!['f', 'r', 'a', 'm', 'e', ' ']);
    assert(text.subrange(6, 6 + w) =~= decimal(width as nat));
    assert(text.subrange(7 + w, 7 + w + h) =~= decimal(height as nat));
    assert(text.subrange(8 + w + h, text.len() - 1) =~= shortest_text(nm_per_pixel));
}

/// The dialog does what is asked for and nothing else: it disconnects where it
/// is asked to or a tool would be replaced, never twice, and connects last.
pub proof fn dialogs_do_what_is_asked_for(requests: ImageJDialogRequests, attached: bool)
    ensures
        dialog_plan(requests, attached).contains(ImageJDialogAction::SavePlugin)
            <==> requests.save_plugin,
        dialog_plan(requests, attached).contains(ImageJDialogAction::Connect) <==> requests.connect,
        dialog_plan(requests, attached).contains(ImageJDialogAction::Disconnect)
            <==> requests.disconnect || (requests.connect && attached),
        dialog_plan(requests, attached).no_duplicates(),
        requests.disconnect ==> dialog_plan(requests, attached)[0]
            == ImageJDialogAction::Disconnect,
        requests.connect ==> dialog_plan(requests, attached).last() == ImageJDialogAction::Connect,
{
    let plan = dialog_plan(requests, attached);
    let (d, s, c) = (
        ImageJDialogAction::Disconnect,
        ImageJDialogAction::SavePlugin,
        ImageJDialogAction::Connect,
    );
    let all = match (requests.disconnect, requests.save_plugin, requests.connect) {
        (false, false, false) => seq![],
        (true, false, false) => seq![d],
        (false, true, false) => seq![s],
        (true, true, false) => seq![d, s],
        (true, false, true) => seq![d, c],
        (true, true, true) => seq![d, s, c],
        (false, false, true) => if attached {
            seq![d, c]
        } else {
            seq![c]
        },
        (false, true, true) => if attached {
            seq![s, d, c]
        } else {
            seq![s, c]
        },
    };
    assert(plan =~= all);
    assert(all.len() > 0 ==> all.contains(all[0]));
    assert(all.len() > 1 ==> all.contains(all[1]));
    assert(all.len() > 2 ==> all.contains(all[2]));
}

/// A connection without losses tells how many frames were offered, and one
/// with losses how many of them arrived.
pub proof fn throughputs_tell_what_arrived(t: ExternalToolThroughput, n: nat)
    requires
        t.wf(),
    ensures
        t.frames_dropped == 0 ==> t.text() == decimal(t.frames_offered as nat) + " frames sent"@,
        t.frames_dropped > 0 && n + t.frames_dropped == t.frames_offered ==> t.text().len() > decimal(
            n,
        ).len() && t.text().take(decimal(n).len() as int) == decimal(n),
        t.frames_dropped > 0 ==> t.text() != decimal(t.frames_offered as nat) + " frames sent"@,
{
    if t.frames_dropped > 0 {
        let m = t.delivered();
        reveal_strlit(" frames sent \u{00B7} ");
        reveal_strlit(" frames sent");
        reveal_strlit(" dropped (");
        reveal_strlit("%)");
        let a = t.text();
        let b = decimal(t.frames_offered as nat) + " frames sent"@;
        assert(a.take(decimal(m).len() as int) =~= decimal(m));
        assert(a.last() == ')');
        assert(b.last() == 't');
    }
}

/// Where no frames were offered none is lost, else the loss is the percentage
/// of the dropped frames, with one decimal.
pub proof fn losses_are_percentages(offered: nat, dropped: nat)
    ensures
        loss_text(0, dropped) == "0.0"@,
        offered > 0 ==> loss_text(offered, dropped) == point_text(
            units_of(percent_of(dropped, offered).0, percent_of(dropped, offered).1, 10),
            10,
            1,
        ),
{
}

/// The dialog tells its own error before that of the connection, and the
/// states of a connection have their own words.
pub proof fn dialogs_tell_their_own_error(dialog: ImageJDialogState, status: ExternalToolStatus)
    ensures
        dialog.error matches Some(text) ==> dialog.shown_error(status) == Some(text@),
        dialog.error is None ==> (status matches ExternalToolStatus::Error(text)
            ==> dialog.shown_error(status) == Some(text@)),
        dialog.error is None && !(status is Error) ==> dialog.shown_error(status) is None,
        status_label(ExternalToolStatus::Streaming) == "Streaming"@,
        status_label(ExternalToolStatus::Connecting) == "Connecting"@,
        status_label(ExternalToolStatus::Disconnected) == "Disconnected"@,
        status matches ExternalToolStatus::Error(text) ==> status_label(status) == "Error: "@
            + text@ && dialog_status_text(status) == "Error"@,
        dialog_status_text(ExternalToolStatus::Streaming) == "Connected"@,
        dialog_status_text(ExternalToolStatus::Connecting) == "Connecting..."@,
        dialog_status_text(ExternalToolStatus::Disconnected) == "Disconnected"@,
{
}

} // verus!
