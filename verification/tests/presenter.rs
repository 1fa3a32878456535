use screen_share::notify::{connection_status, Notification};
use screen_share::sharing::{
    CaptureLoop, CaptureStep, RawCapture, SharingSession, SharingState, StartError,
};
use screen_share::viewers::{accept_more, on_accept, Broadcast, ForwardState, ForwardTask};
use screen_share::wire::decode_frame;

fn capture(width: u32, height: u32) -> Option<RawCapture> {
    Some(RawCapture { pixels: vec![90; (4 * width * height) as usize], width, height })
}

/// Runs a capture loop over the given sharing states, one per tick, with a
/// capture that succeeds at the ticks named in `good`.
fn run_ticks(l: &mut CaptureLoop, sharing: &[bool], good: &[usize]) -> Vec<String> {
    let mut published = Vec::new();
    for (i, active) in sharing.iter().enumerate() {
        match l.poll(*active) {
            CaptureStep::Capture => {
                let attempt = if good.contains(&i) { capture(8, 8) } else { None };
                if let Some(text) = CaptureLoop::message(attempt) {
                    published.push(text);
                }
            }
            CaptureStep::Finish(_) => {}
        }
    }
    published
}

#[test]
fn new_session_is_idle() {
    let session = SharingSession::new();
    assert_eq!(session.state, SharingState::Idle);
    assert!(!session.is_sharing());
}

#[test]
fn start_binds_every_interface_at_the_port() {
    let mut session = SharingSession::new();
    assert_eq!(session.begin_start(9100), Ok("0.0.0.0:9100".to_string()));
    assert_eq!(session.state, SharingState::Starting);
    assert_eq!(session.port, 9100);
    assert!(!session.is_sharing());
    let mut other = SharingSession::new();
    assert_eq!(other.begin_start(0), Ok("0.0.0.0:0".to_string()));
    let mut last = SharingSession::new();
    assert_eq!(last.begin_start(65535), Ok("0.0.0.0:65535".to_string()));
}

#[test]
fn successful_start_gives_the_address_to_share() {
    let mut session = SharingSession::new();
    session.begin_start(9100).unwrap();
    let address = session.finish_start(Ok(()), Some("192.168.1.20".to_string()));
    assert_eq!(address, Ok("192.168.1.20:9100".to_string()));
    assert!(session.is_sharing());
    assert_eq!(session.state, SharingState::Active);
}

#[test]
fn unknown_local_address_degrades_to_a_placeholder() {
    let mut session = SharingSession::new();
    session.begin_start(8080).unwrap();
    assert_eq!(session.finish_start(Ok(()), None), Ok("unknown:8080".to_string()));
    assert!(session.is_sharing());
}

#[test]
fn failed_bind_leaves_the_session_idle() {
    let mut session = SharingSession::new();
    session.begin_start(80).unwrap();
    let r = session.finish_start(Err("Permission denied (os error 13)".to_string()), None);
    assert_eq!(r, Err(StartError::BindError("Permission denied (os error 13)".to_string())));
    assert_eq!(r.unwrap_err().message(), "Permission denied (os error 13)");
    assert_eq!(session.state, SharingState::Idle);
    assert!(!session.is_sharing());
    assert_eq!(session.begin_start(8081), Ok("0.0.0.0:8081".to_string()));
}

#[test]
fn start_while_active_is_refused_and_changes_nothing() {
    let mut session = SharingSession::new();
    session.begin_start(9100).unwrap();
    session.finish_start(Ok(()), None).unwrap();
    let before = session;
    let r = session.begin_start(9200);
    assert_eq!(r, Err(StartError::AlreadyActive));
    assert_eq!(r.unwrap_err().message(), "Already sharing");
    assert_eq!(session, before);
    assert!(session.is_sharing());
    assert_eq!(session.port, 9100);
}

#[test]
fn start_while_starting_is_refused_and_changes_nothing() {
    let mut session = SharingSession::new();
    session.begin_start(9100).unwrap();
    let before = session;
    assert_eq!(session.begin_start(9200), Err(StartError::AlreadyActive));
    assert_eq!(session, before);
}

#[test]
fn stop_is_immediate_and_idempotent() {
    let mut session = SharingSession::new();
    session.begin_start(9100).unwrap();
    session.finish_start(Ok(()), None).unwrap();
    session.stop();
    assert!(!session.is_sharing());
    let once = session;
    session.stop();
    assert_eq!(session, once);
    let mut idle = SharingSession::new();
    idle.stop();
    assert_eq!(idle.state, SharingState::Idle);
    assert_eq!(session.begin_start(9300), Ok("0.0.0.0:9300".to_string()));
}

#[test]
fn session_packs_into_one_word_and_back() {
    for state in [SharingState::Idle, SharingState::Starting, SharingState::Active] {
        for port in [0u16, 1, 9100, 65535] {
            let session = SharingSession { state, port };
            assert_eq!(SharingSession::from_word(session.to_word()), session);
        }
    }
    assert_eq!(SharingSession::new().to_word(), 0);
    assert_eq!(SharingSession { state: SharingState::Starting, port: 9100 }.to_word(), 0x1238c);
    assert_eq!(SharingSession { state: SharingState::Active, port: 65535 }.to_word(), 0x2ffff);
    assert_eq!(
        SharingSession::from_word(0x30007),
        SharingSession { state: SharingState::Idle, port: 7 }
    );
    assert_eq!(
        SharingSession::from_word(u32::MAX),
        SharingSession { state: SharingState::Idle, port: 65535 }
    );
}

#[test]
fn interval_is_a_thousand_over_the_rate() {
    assert_eq!(CaptureLoop::new(1).interval_ms, 1000);
    assert_eq!(CaptureLoop::new(2).interval_ms, 500);
    assert_eq!(CaptureLoop::new(3).interval_ms, 333);
    assert_eq!(CaptureLoop::new(30).interval_ms, 33);
    assert_eq!(CaptureLoop::new(1000).interval_ms, 1);
    assert_eq!(CaptureLoop::new(1001).interval_ms, 0);
    assert_eq!(CaptureLoop::new(u32::MAX).interval_ms, 0);
    assert!(!CaptureLoop::new(5).finished);
}

#[test]
fn capture_loop_runs_while_sharing_and_finishes_once_it_is_not() {
    let mut l = CaptureLoop::new(2);
    assert_eq!(l.poll(true), CaptureStep::Capture);
    assert_eq!(l.poll(true), CaptureStep::Capture);
    assert!(!l.finished);
    assert_eq!(l.poll(false), CaptureStep::Finish(Notification::SharingStopped));
    assert!(l.finished);
    assert_eq!(l.poll(true), CaptureStep::Finish(Notification::SharingStopped));
    assert!(l.finished);
    assert_eq!(l.interval_ms, 500);
}

#[test]
fn tick_message_is_the_wire_text_of_the_captured_frame() {
    let text = CaptureLoop::message(capture(6, 4)).unwrap();
    let frame = decode_frame(&text).unwrap();
    assert_eq!((frame.width, frame.height), (6, 4));
    assert_eq!(
        Some(frame),
        screen_share::frame::encode_capture(vec![90; 96], 6, 4)
    );
    assert!(text.starts_with("{\"data\":\"/9j/"));
    assert!(text.ends_with("\",\"width\":6,\"height\":4}"));
}

#[test]
fn failed_capture_publishes_nothing() {
    assert_eq!(CaptureLoop::message(None), None);
    assert_eq!(
        CaptureLoop::message(Some(RawCapture { pixels: vec![0; 3], width: 1, height: 1 })),
        None
    );
    assert_eq!(
        CaptureLoop::message(Some(RawCapture { pixels: Vec::new(), width: 0, height: 0 })),
        None
    );
}

#[test]
fn a_run_publishes_at_least_one_and_at_most_one_frame_per_tick() {
    for k in 1..6usize {
        let sharing = vec![true; k];
        let all: Vec<usize> = (0..k).collect();
        let mut l = CaptureLoop::new(4);
        assert_eq!(run_ticks(&mut l, &sharing, &all).len(), k);
        let mut l = CaptureLoop::new(4);
        assert_eq!(run_ticks(&mut l, &sharing, &[k - 1]).len(), 1);
        let mut l = CaptureLoop::new(4);
        assert_eq!(run_ticks(&mut l, &sharing, &[]).len(), 0);
    }
}

#[test]
fn nothing_is_published_after_the_loop_saw_the_stop() {
    let mut l = CaptureLoop::new(2);
    let published = run_ticks(&mut l, &[true, true, false, true, true], &[0, 1, 2, 3, 4]);
    assert_eq!(published.len(), 2);
    assert!(l.finished);
}

#[test]
fn accept_loop_follows_the_sharing_state() {
    assert!(accept_more(true));
    assert!(!accept_more(false));
}

#[test]
fn accepted_connection_is_announced_and_gets_a_task() {
    let (note, task) = on_accept(Some("10.0.0.7:51234".to_string())).unwrap();
    assert_eq!(note, Notification::ClientConnected("10.0.0.7:51234".to_string()));
    assert_eq!(note.name(), "client-connected");
    assert_eq!(task.state, ForwardState::Upgrading);
    assert_eq!(on_accept(None), None);
}

#[test]
fn notification_names() {
    assert_eq!(Notification::SharingStopped.name(), "sharing-stopped");
    assert_eq!(Notification::ClientConnected(String::new()).name(), "client-connected");
    assert_eq!(Notification::ConnectionStatus(true).name(), "connection-status");
    assert_eq!(Notification::ConnectionStatus(false).name(), "connection-status");
    let frame = screen_share::frame::ScreenFrame::new("x".to_string(), 1, 1);
    assert_eq!(Notification::ScreenFrame(frame).name(), "screen-frame");
    assert_eq!(connection_status(true), "connected");
    assert_eq!(connection_status(false), "disconnected");
}

#[test]
fn failed_upgrade_drops_the_connection() {
    let mut task = ForwardTask::new();
    task.on_upgrade(false);
    assert_eq!(task.state, ForwardState::Closed);
    assert!(!task.poll(true));
    task.on_upgrade(true);
    assert_eq!(task.state, ForwardState::Closed);
}

#[test]
fn task_does_not_stream_before_the_upgrade() {
    let mut task = ForwardTask::new();
    assert!(!task.poll(true));
    assert_eq!(task.state, ForwardState::Upgrading);
    assert_eq!(task.on_broadcast(Broadcast::Message("m".to_string())), None);
}

#[test]
fn streaming_task_forwards_each_message() {
    let mut task = ForwardTask::new();
    task.on_upgrade(true);
    assert_eq!(task.state, ForwardState::Streaming);
    assert!(task.poll(true));
    assert_eq!(task.on_broadcast(Broadcast::Message("one".to_string())), Some("one".to_string()));
    task.on_write(true);
    assert!(task.poll(true));
    assert_eq!(task.on_broadcast(Broadcast::Message("two".to_string())), Some("two".to_string()));
    task.on_write(true);
    assert_eq!(task.state, ForwardState::Streaming);
}

#[test]
fn lag_is_passed_over() {
    let mut task = ForwardTask::new();
    task.on_upgrade(true);
    assert!(task.poll(true));
    assert_eq!(task.on_broadcast(Broadcast::Lagged(5)), None);
    assert_eq!(task.state, ForwardState::Streaming);
    assert!(task.poll(true));
}

#[test]
fn task_ends_on_write_failure_closed_subscription_or_stop() {
    let mut failed = ForwardTask::new();
    failed.on_upgrade(true);
    failed.poll(true);
    failed.on_broadcast(Broadcast::Message("m".to_string()));
    failed.on_write(false);
    assert_eq!(failed.state, ForwardState::Closed);
    assert!(!failed.poll(true));
    assert_eq!(failed.on_broadcast(Broadcast::Message("m".to_string())), None);

    let mut drained = ForwardTask::new();
    drained.on_upgrade(true);
    drained.poll(true);
    assert_eq!(drained.on_broadcast(Broadcast::Closed), None);
    assert_eq!(drained.state, ForwardState::Closed);

    let mut stopped = ForwardTask::new();
    stopped.on_upgrade(true);
    assert!(!stopped.poll(false));
    assert_eq!(stopped.state, ForwardState::Closed);
}

/// Feeds one published message to a task and gives what reaches its viewer.
fn forward(task: &mut ForwardTask, sharing: bool, message: &str, healthy: bool) -> Option<String> {
    if !task.poll(sharing) {
        return None;
    }
    let text = task.on_broadcast(Broadcast::Message(message.to_string()))?;
    task.on_write(healthy);
    if healthy {
        Some(text)
    } else {
        None
    }
}

#[test]
fn dropped_viewer_does_not_stop_the_other_viewer_or_the_capture_loop() {
    let mut capture_loop = CaptureLoop::new(2);
    let mut first = ForwardTask::new();
    let mut second = ForwardTask::new();
    first.on_upgrade(true);
    second.on_upgrade(true);
    let mut to_first = Vec::new();
    let mut to_second = Vec::new();
    let mut published = Vec::new();
    for tick in 0..5u32 {
        assert_eq!(capture_loop.poll(true), CaptureStep::Capture);
        let text = CaptureLoop::message(capture(2 + tick, 2)).unwrap();
        published.push(text.clone());
        if let Some(m) = forward(&mut first, true, &text, tick != 2) {
            to_first.push(m);
        }
        if let Some(m) = forward(&mut second, true, &text, true) {
            to_second.push(m);
        }
    }
    assert_eq!(first.state, ForwardState::Closed);
    assert_eq!(second.state, ForwardState::Streaming);
    assert_eq!(to_first, published[..2].to_vec());
    assert_eq!(to_second, published);
    assert!(!capture_loop.finished);
}

#[test]
fn viewer_receives_in_publish_order_with_gaps() {
    let mut task = ForwardTask::new();
    task.on_upgrade(true);
    let yields = [
        Broadcast::Message("f1".to_string()),
        Broadcast::Message("f2".to_string()),
        Broadcast::Lagged(3),
        Broadcast::Message("f6".to_string()),
        Broadcast::Message("f7".to_string()),
    ];
    let mut received = Vec::new();
    for event in yields {
        assert!(task.poll(true));
        if let Some(text) = task.on_broadcast(event) {
            task.on_write(true);
            received.push(text);
        }
    }
    assert_eq!(received, vec!["f1", "f2", "f6", "f7"]);
}
