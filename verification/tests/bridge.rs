use augur_gui::binary64::Real64;
use augur_gui::external_tools::{
    dialog_status, frame_header, newest_frame, pixel_bytes, text_command, BridgeEvent,
    BridgeStep, ExternalToolStatus, ExternalToolThroughput, ImageJBridge, ImageJDialogAction,
    ImageJDialogRequests, ImageJDialogState,
};

#[test]
fn bridges_stream_until_something_fails() {
    let mut bridge = ImageJBridge::new("127.0.0.1".into(), 57_294);
    assert!(bridge.send_frame(true).is_err());
    assert!(bridge.connect());
    assert!(!bridge.connect());
    assert_eq!(bridge.status, ExternalToolStatus::Connecting);
    assert_eq!(bridge.worker_event(BridgeEvent::Connected), BridgeStep::Handshake);
    assert!(bridge.status.is_streaming());
    assert!(bridge.send_frame(true).is_ok());
    assert!(bridge.send_frame(false).is_ok());
    assert_eq!(
        bridge.throughput,
        ExternalToolThroughput { frames_offered: 2, frames_dropped: 1 }
    );
    assert_eq!(
        bridge.worker_event(BridgeEvent::SendFailed("broken pipe".into())),
        BridgeStep::Stop
    );
    assert_eq!(bridge.status.label(), "Error: send frame failed: broken pipe");
    bridge.disconnect();
    assert_eq!(bridge.status, ExternalToolStatus::Disconnected);
}

#[test]
fn each_failure_is_named() {
    for (event, text) in [
        (BridgeEvent::ConnectFailed("x".into()), "Error: connect failed: x"),
        (BridgeEvent::HandshakeFailed("x".into()), "Error: handshake failed: x"),
        (BridgeEvent::SendFailed("x".into()), "Error: send frame failed: x"),
        (BridgeEvent::QueueClosed, "Disconnected"),
    ] {
        let mut bridge = ImageJBridge::new("h".into(), 1);
        bridge.connect();
        assert_eq!(bridge.worker_event(event), BridgeStep::Stop);
        assert_eq!(bridge.status.label(), text);
    }
}

#[test]
fn superseded_frames_count_as_lost() {
    let (newest, superseded) = newest_frame(1, vec![2, 3]);
    assert_eq!((newest, superseded), (3, 2));
    let mut bridge = ImageJBridge::new("h".into(), 1);
    bridge.connect();
    for _ in 0..3 {
        bridge.send_frame(true).unwrap();
    }
    bridge.frames_superseded(superseded);
    assert_eq!(bridge.throughput.frames_delivered(), 1);
    assert_eq!(
        bridge.throughput.frames_delivered() + bridge.throughput.frames_dropped,
        bridge.throughput.frames_offered
    );
}

#[test]
fn frames_are_sent_with_a_header() {
    let header = |nm: f64| frame_header(640, 480, Real64::from_bits(nm.to_bits()));
    assert_eq!(header(4860.0), "frame 640 480 4860\n");
    assert_eq!(header(162.5), "frame 640 480 162.5\n");
    assert_eq!(header(0.1), "frame 640 480 0.1\n");
    assert_eq!(header(0.0), "frame 640 480 0\n");
    assert_eq!(pixel_bytes(&vec![0x0102, 0xffff]).len(), 4);
    assert_ne!(pixel_bytes(&vec![0x0102]), pixel_bytes(&vec![0x0201]));
    assert!(text_command("hello").ends_with('\n'));
}

#[test]
fn dialogs_do_what_is_asked_in_order() {
    let mut dialog = ImageJDialogState::default();
    assert_eq!(dialog.streaming_label(), "Streaming to ImageJ (127.0.0.1:57294)");
    let all = ImageJDialogRequests { connect: true, disconnect: false, save_plugin: true };
    let plan = dialog.begin(all, true);
    assert_eq!(plan.last(), Some(&ImageJDialogAction::Connect));
    let place = |action| plan.iter().position(|step| *step == action);
    assert!(place(ImageJDialogAction::Disconnect) < place(ImageJDialogAction::Connect));
    dialog.plugin_saved("/tmp/AugurBridge.jar", Ok(()));
    assert!(dialog.info.as_deref().unwrap().contains("/tmp/AugurBridge.jar"));
    dialog.plugin_saved("/tmp/AugurBridge.jar", Err("denied".into()));
    assert!(dialog.error.as_deref().unwrap().contains("denied"));
    dialog.connecting();
    assert!(dialog.info.is_none() && dialog.error.is_none());
    dialog.connect_failed("refused".into());
    assert!(dialog.error_text(&ExternalToolStatus::Disconnected).unwrap().contains("refused"));
    assert!(!dialog_status(&ExternalToolStatus::Streaming).is_empty());
    assert_ne!(
        ImageJDialogState::enabled_buttons(true),
        ImageJDialogState::enabled_buttons(false)
    );
}
