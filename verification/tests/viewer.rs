use screen_share::frame::ScreenFrame;
use screen_share::notify::Notification;
use screen_share::sharing::{CaptureLoop, CaptureStep, RawCapture, SharingSession};
use screen_share::viewers::{Broadcast, ForwardTask};
use screen_share::viewing::{ConnectError, Inbound, ReceiveStep, ViewingSession, ViewingState};
use screen_share::wire::encode_frame;

fn connected() -> ViewingSession {
    let mut session = ViewingSession::new();
    session.begin_connect("192.168.1.20:9100").unwrap();
    session.finish_connect("192.168.1.20:9100", Ok(())).unwrap();
    session
}

fn text_of(frame: &ScreenFrame) -> Inbound {
    Inbound::Text(encode_frame(frame))
}

#[test]
fn new_viewing_session_is_idle() {
    let session = ViewingSession::new();
    assert_eq!(session.state, ViewingState::Idle);
    assert!(!session.is_connected());
}

#[test]
fn viewing_session_packs_into_one_byte_and_back() {
    for state in [ViewingState::Idle, ViewingState::Connecting, ViewingState::Connected] {
        let session = ViewingSession { state };
        assert_eq!(ViewingSession::from_byte(session.to_byte()), session);
    }
    assert_eq!(ViewingSession::new().to_byte(), 0);
    assert_eq!(ViewingSession { state: ViewingState::Connecting }.to_byte(), 1);
    assert_eq!(ViewingSession { state: ViewingState::Connected }.to_byte(), 2);
    assert_eq!(ViewingSession::from_byte(3).state, ViewingState::Idle);
    assert_eq!(ViewingSession::from_byte(255).state, ViewingState::Idle);
}

#[test]
fn connect_opens_the_streaming_endpoint_of_the_address() {
    let mut session = ViewingSession::new();
    assert_eq!(
        session.begin_connect("192.168.1.20:9100"),
        Ok("ws://192.168.1.20:9100".to_string())
    );
    assert_eq!(session.state, ViewingState::Connecting);
    assert!(!session.is_connected());
    let mut other = ViewingSession::new();
    assert_eq!(other.begin_connect(""), Ok("ws://".to_string()));
}

#[test]
fn opened_connection_is_announced() {
    let mut session = ViewingSession::new();
    session.begin_connect("host:1").unwrap();
    let note = session.finish_connect("host:1", Ok(()));
    assert_eq!(note, Ok(Notification::ConnectionStatus(true)));
    assert!(session.is_connected());
}

#[test]
fn failed_connection_keeps_the_cause_and_leaves_the_session_idle() {
    let mut session = ViewingSession::new();
    session.begin_connect("10.0.0.9:9100").unwrap();
    let r = session.finish_connect("10.0.0.9:9100", Err("Connection refused".to_string()));
    let error = r.unwrap_err();
    assert_eq!(
        error,
        ConnectError::ConnectionError {
            address: "10.0.0.9:9100".to_string(),
            cause: "Connection refused".to_string(),
        }
    );
    assert_eq!(
        error.message(),
        "Kh\u{f4}ng th\u{1ec3} k\u{1ebf}t n\u{1ed1}i \u{111}\u{1ebf}n 10.0.0.9:9100: Connection refused"
    );
    assert_eq!(session.state, ViewingState::Idle);
    assert_eq!(session.begin_connect("10.0.0.9:9100"), Ok("ws://10.0.0.9:9100".to_string()));
}

#[test]
fn connect_while_connected_is_refused_and_changes_nothing() {
    let mut session = connected();
    let before = session;
    let r = session.begin_connect("elsewhere:1");
    assert_eq!(r, Err(ConnectError::AlreadyConnected));
    assert_eq!(r.unwrap_err().message(), "Already connected");
    assert_eq!(session, before);
    assert!(session.is_connected());
}

#[test]
fn connect_while_connecting_is_refused() {
    let mut session = ViewingSession::new();
    session.begin_connect("a:1").unwrap();
    assert_eq!(session.begin_connect("b:2"), Err(ConnectError::AlreadyConnected));
    assert_eq!(session.state, ViewingState::Connecting);
}

#[test]
fn disconnect_is_immediate_and_idempotent() {
    let mut session = connected();
    session.disconnect();
    assert!(!session.is_connected());
    session.disconnect();
    assert_eq!(session.state, ViewingState::Idle);
}

#[test]
fn receive_loop_waits_while_connected() {
    let mut session = connected();
    assert_eq!(session.poll(), ReceiveStep { emit: None, proceed: true });
    assert!(session.is_connected());
}

#[test]
fn receive_loop_reports_the_disconnect_it_sees() {
    let mut session = connected();
    session.disconnect();
    assert_eq!(
        session.poll(),
        ReceiveStep { emit: Some(Notification::ConnectionStatus(false)), proceed: false }
    );
    assert_eq!(session.state, ViewingState::Idle);
}

#[test]
fn frame_in_a_text_message_is_passed_on() {
    let mut session = connected();
    let frame = ScreenFrame::new("aGk=".to_string(), 4, 3);
    assert_eq!(
        session.on_inbound(text_of(&frame)),
        ReceiveStep { emit: Some(Notification::ScreenFrame(frame)), proceed: true }
    );
    assert!(session.is_connected());
}

#[test]
fn other_kinds_of_message_are_ignored() {
    let mut session = connected();
    assert_eq!(session.on_inbound(Inbound::Other), ReceiveStep { emit: None, proceed: true });
    assert!(session.is_connected());
}

#[test]
fn failure_and_end_of_stream_end_the_session() {
    for last in [Inbound::Failed, Inbound::Ended] {
        let mut session = connected();
        assert_eq!(
            session.on_inbound(last),
            ReceiveStep { emit: Some(Notification::ConnectionStatus(false)), proceed: false }
        );
        assert!(!session.is_connected());
        assert_eq!(session.state, ViewingState::Idle);
    }
}

/// Runs the receive loop over the messages and gives what it emits.
fn receive(session: &mut ViewingSession, inbound: Vec<Inbound>) -> Vec<Notification> {
    let mut emitted = Vec::new();
    for message in inbound {
        let head = session.poll();
        emitted.extend(head.emit);
        if !head.proceed {
            break;
        }
        let step = session.on_inbound(message);
        emitted.extend(step.emit);
        if !step.proceed {
            break;
        }
    }
    emitted
}

#[test]
fn malformed_message_does_not_end_the_receive_loop() {
    let first = ScreenFrame::new("Zmlyc3Q=".to_string(), 10, 20);
    let second = ScreenFrame::new("c2Vjb25k".to_string(), 30, 40);
    let whole = encode_frame(&second);
    let truncated = whole[..whole.len() - 5].to_string();
    let mut session = connected();
    let emitted = receive(
        &mut session,
        vec![
            text_of(&first),
            Inbound::Text(truncated),
            Inbound::Text("not json".to_string()),
            Inbound::Other,
            text_of(&second),
        ],
    );
    assert_eq!(
        emitted,
        vec![Notification::ScreenFrame(first), Notification::ScreenFrame(second)]
    );
    assert!(session.is_connected());
}

#[test]
fn nothing_is_received_after_the_stream_ended() {
    let frame = ScreenFrame::new("eA==".to_string(), 1, 1);
    let mut session = connected();
    let emitted = receive(
        &mut session,
        vec![text_of(&frame), Inbound::Ended, text_of(&frame)],
    );
    assert_eq!(
        emitted,
        vec![Notification::ScreenFrame(frame), Notification::ConnectionStatus(false)]
    );
    assert!(!session.is_connected());
}

#[test]
fn sharing_and_viewing_end_to_end() {
    // Start sharing on port 9100 at two frames per second.
    let mut sharing = SharingSession::new();
    assert_eq!(sharing.begin_start(9100), Ok("0.0.0.0:9100".to_string()));
    let address = sharing.finish_start(Ok(()), Some("192.168.0.2".to_string())).unwrap();
    assert_eq!(address, "192.168.0.2:9100");
    let mut capture_loop = CaptureLoop::new(2);
    assert_eq!(capture_loop.interval_ms, 500);

    // A viewer connects to the address that was handed out.
    let mut viewing = ViewingSession::new();
    assert_eq!(viewing.begin_connect(&address), Ok("ws://192.168.0.2:9100".to_string()));
    assert_eq!(
        viewing.finish_connect(&address, Ok(())),
        Ok(Notification::ConnectionStatus(true))
    );
    let mut task = ForwardTask::new();
    task.on_upgrade(true);

    // Within 1100 ms the loop ticks at 0, 500 and 1000 ms.
    let mut published = 0;
    let mut frames = Vec::new();
    let mut clock: u64 = 0;
    while clock <= 1100 {
        assert_eq!(capture_loop.poll(sharing.is_sharing()), CaptureStep::Capture);
        let raw = RawCapture { pixels: vec![200; 4 * 12 * 10], width: 12, height: 10 };
        if let Some(text) = CaptureLoop::message(Some(raw)) {
            published += 1;
            assert!(task.poll(sharing.is_sharing()));
            let outgoing = task.on_broadcast(Broadcast::Message(text)).unwrap();
            task.on_write(true);
            assert!(viewing.poll().proceed);
            if let Some(Notification::ScreenFrame(frame)) =
                viewing.on_inbound(Inbound::Text(outgoing)).emit
            {
                frames.push(frame);
            }
        }
        clock += capture_loop.interval_ms;
    }
    assert_eq!(published, 3);
    assert_eq!(frames.len(), 3);
    assert_eq!((frames[0].width, frames[0].height), (12, 10));

    // The viewer disconnects.
    viewing.disconnect();
    assert!(!viewing.is_connected());
    assert_eq!(viewing.poll().emit, Some(Notification::ConnectionStatus(false)));

    // Sharing stops: the loops see it at their next turn and nothing more
    // is published.
    sharing.stop();
    assert!(!sharing.is_sharing());
    assert_eq!(
        capture_loop.poll(sharing.is_sharing()),
        CaptureStep::Finish(Notification::SharingStopped)
    );
    assert!(!task.poll(sharing.is_sharing()));
    assert_eq!(
        capture_loop.poll(true),
        CaptureStep::Finish(Notification::SharingStopped)
    );
}
