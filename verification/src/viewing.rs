//! The viewer's side: the viewing session and its receive loop.
//!
//! As on the presenter's side, the caller does the outside work: it opens
//! the connection and waits for messages, and reports what came of it.

use vstd::prelude::*;
use vstd::string::StringExecFns;
use crate::frame::FrameView;
use crate::notify::Notification;
use crate::wire::{decode_frame, parse_frame};

verus! {

/// Where a viewing session stands.
#[derive(Clone, Copy, Debug, PartialEq, Eq, Structural)]
pub enum ViewingState {
    /// There is no connection.
    Idle,
    /// A connect was accepted; the connection is being opened.
    Connecting,
    /// The receive loop runs.
    Connected,
}

/// Why a connect failed.
#[derive(Clone, Debug, PartialEq, Eq)]
pub enum ConnectError {
    /// A connection is being opened or is open already.
    AlreadyConnected,
    /// The connection to `address` could not be opened; the cause is kept.
    ConnectionError { address: String, cause: String },
}

/// The address of the streaming endpoint of a presenter.
pub open spec fn presenter_url(address: Seq<char>) -> Seq<char> {
    "ws://"@ + address
}

/// What the caller of a failed connect is told.
pub open spec fn connect_error_text(e: ConnectError) -> Seq<char> {
    match e {
        ConnectError::AlreadyConnected => "Already connected"@,
        ConnectError::ConnectionError { address, cause } => "Không thể kết nối đến "@ + address@
            + ": "@ + cause@,
    }
}

impl ConnectError {
    /// The message for the caller: a fixed text where a connection exists
    /// already; otherwise a sentence that names the address and the cause.
    pub fn message(&self) -> (text: String)
        ensures
            text@ == connect_error_text(*self),
    {
        match self {
            ConnectError::AlreadyConnected => "Already connected".to_owned(),
            ConnectError::ConnectionError { address, cause } => {
                let mut text = "Không thể kết nối đến ".to_owned();
                text.append(address.as_str());
                text.append(": ");
                text.append(cause.as_str());
                text
            },
        }
    }
}

/// A message that arrives on the connection, or the end of them.
#[derive(Clone, Debug, PartialEq, Eq)]
pub enum Inbound {
    /// A text message.
    Text(String),
    /// A message of any other kind.
    Other,
    /// The connection failed.
    Failed,
    /// The stream of messages ended.
    Ended,
}

/// What the receive loop does next.
#[derive(Clone, Debug, PartialEq, Eq)]
pub struct ReceiveStep {
    /// The notification to emit now, if any.
    pub emit: Option<Notification>,
    /// Whether the loop goes on. Where it does not, the task ends.
    pub proceed: bool,
}

/// The connection state of one viewer.
#[derive(Clone, Copy, Debug, PartialEq, Eq, Structural)]
pub struct ViewingSession {
    pub state: ViewingState,
}

/// The frame that an inbound message carries, if it carries one: a text
/// message is read as wire text, and nothing else carries a frame.
pub open spec fn frame_in(inbound: Inbound) -> Option<FrameView> {
    match inbound {
        Inbound::Text(text) => parse_frame(text@),
        _ => None,
    }
}

/// Whether an inbound message ends the receive loop: a failure of the
/// connection does, and so does the end of the stream.
pub open spec fn ends_stream(inbound: Inbound) -> bool {
    inbound is Failed || inbound is Ended
}

impl ViewingSession {
    /// The session packed into one byte, so that it can be kept in a single
    /// atomic cell.
    pub open spec fn byte(self) -> u8 {
        match self.state {
            ViewingState::Idle => 0,
            ViewingState::Connecting => 1,
            ViewingState::Connected => 2,
        }
    }

    /// Packs the session into one byte.
    pub fn to_byte(&self) -> (b: u8)
        ensures
            b == self.byte(),
    {
        match self.state {
            ViewingState::Idle => 0,
            ViewingState::Connecting => 1,
            ViewingState::Connected => 2,
        }
    }

    /// The session that a byte stands for. Every session comes back from
    /// its own byte; a byte that no session packs to stands for an idle
    /// one.
    pub fn from_byte(b: u8) -> (session: ViewingSession)
        ensures
            forall|s: ViewingSession| s.byte() == b ==> session == s,
            b > 2 ==> session.state is Idle,
    {
        let state = if b == 1 {
            ViewingState::Connecting
        } else if b == 2 {
            ViewingState::Connected
        } else {
            ViewingState::Idle
        };
        ViewingSession { state }
    }

    /// The session after the receive loop looked at it at the head of a
    /// turn: a session that is not connected is idle.
    pub open spec fn polled(self) -> ViewingSession {
        if self.state is Connected {
            self
        } else {
            ViewingSession { state: ViewingState::Idle }
        }
    }

    /// The session after the receive loop took `inbound`.
    pub open spec fn received(self, inbound: Inbound) -> ViewingSession {
        if ends_stream(inbound) {
            ViewingSession { state: ViewingState::Idle }
        } else {
            self
        }
    }

    /// A session without a connection.
    pub fn new() -> (session: ViewingSession)
        ensures
            session.state is Idle,
    {
        ViewingSession { state: ViewingState::Idle }
    }

    /// Whether the receive loop runs.
    pub fn is_connected(&self) -> (connected: bool)
        ensures
            connected == (self.state is Connected),
    {
        match self.state {
            ViewingState::Connected => true,
            _ => false,
        }
    }

    /// Asks to connect to the presenter at `address`.
    ///
    /// An idle session accepts: it is now connecting, and the result is the
    /// address of the streaming endpoint to open. Any other session refuses
    /// with `AlreadyConnected` and stays as it is.
    pub fn begin_connect(&mut self, address: &str) -> (r: Result<String, ConnectError>)
        ensures
            old(self).state is Idle ==> r is Ok && r->Ok_0@ == presenter_url(address@)
                && final(self).state is Connecting,
            !(old(self).state is Idle) ==> r == Err::<String, ConnectError>(
                ConnectError::AlreadyConnected,
            ) && *final(self) == *old(self),
    {
        match self.state {
            ViewingState::Idle => {
                self.state = ViewingState::Connecting;
                let mut url = "ws://".to_owned();
                url.append(address);
                Ok(url)
            },
            _ => Err(ConnectError::AlreadyConnected),
        }
    }

    /// Takes the outcome of opening the connection to `address`.
    ///
    /// Where it was opened the session is connected, and the host shell is
    /// told so. Where it was not, a connecting session is idle again, and
    /// the result is `ConnectionError` with the address and the cause.
    pub fn finish_connect(&mut self, address: &str, opened: Result<(), String>) -> (r: Result<
        Notification,
        ConnectError,
    >)
        ensures
            opened is Ok ==> final(self).state is Connected && r == Ok::<
                Notification,
                ConnectError,
            >(Notification::ConnectionStatus(true)),
            opened is Err ==> final(self).state == (if old(self).state is Connecting {
                ViewingState::Idle
            } else {
                old(self).state
            }) && (r matches Err(ConnectError::ConnectionError { address: a, cause: c }) && a@
                == address@ && c@ == opened->Err_0@),
    {
        match opened {
            Ok(_) => {
                self.state = ViewingState::Connected;
                Ok(Notification::ConnectionStatus(true))
            },
            Err(cause) => {
                match self.state {
                    ViewingState::Connecting => {
                        self.state = ViewingState::Idle;
                    },
                    _ => {},
                }
                Err(ConnectError::ConnectionError { address: address.to_owned(), cause })
            },
        }
    }

    /// Drops the connection: the session is idle, whatever it was. The
    /// receive loop sees this at its next turn and tells the host shell.
    pub fn disconnect(&mut self)
        ensures
            final(self).state is Idle,
    {
        self.state = ViewingState::Idle;
    }

    /// Looks at the session at the head of a turn of the receive loop.
    ///
    /// While the session is connected the loop waits for the next message.
    /// Otherwise the loop ends: the session is idle and the host shell is
    /// told that the connection is gone.
    pub fn poll(&mut self) -> (step: ReceiveStep)
        ensures
            *final(self) == old(self).polled(),
            step.proceed == (old(self).state is Connected),
            step.proceed ==> step.emit is None,
            !step.proceed ==> step.emit == Some(Notification::ConnectionStatus(false)),
    {
        match self.state {
            ViewingState::Connected => ReceiveStep { emit: None, proceed: true },
            _ => {
                self.state = ViewingState::Idle;
                ReceiveStep { emit: Some(Notification::ConnectionStatus(false)), proceed: false }
            },
        }
    }

    /// Takes what arrived on the connection.
    ///
    /// A text message that reads as a frame is passed to the host shell. A
    /// text message that does not, and a message of any other kind, is
    /// dropped, and the loop goes on. A failure of the connection or the
    /// end of the stream ends the loop: the session is idle and the host
    /// shell is told that the connection is gone.
    pub fn on_inbound(&mut self, inbound: Inbound) -> (step: ReceiveStep)
        ensures
            *final(self) == old(self).received(inbound),
            step.proceed == !ends_stream(inbound),
            ends_stream(inbound) ==> step.emit == Some(Notification::ConnectionStatus(false)),
            !ends_stream(inbound) ==> match frame_in(inbound) {
                Some(frame) => step.emit matches Some(Notification::ScreenFrame(f)) && f@ == frame,
                None => step.emit is None,
            },
    {
        match inbound {
            Inbound::Text(text) => match decode_frame(text.as_str()) {
                Some(frame) => ReceiveStep {
                    emit: Some(Notification::ScreenFrame(frame)),
                    proceed: true,
                },
                None => ReceiveStep { emit: None, proceed: true },
            },
            Inbound::Other => ReceiveStep { emit: None, proceed: true },
            _ => {
                self.state = ViewingState::Idle;
                ReceiveStep { emit: Some(Notification::ConnectionStatus(false)), proceed: false }
            },
        }
    }
}

/// The frames that the receive loop passes to the host shell over a run
/// of inbound messages, in order.
pub open spec fn received_frames(session: ViewingSession, inbound: Seq<Inbound>) -> Seq<FrameView>
    decreases inbound.len(),
{
    if inbound.len() == 0 || !(session.state is Connected) || ends_stream(inbound[0]) {
        Seq::empty()
    } else {
        let later = received_frames(session.received(inbound[0]), inbound.skip(1));
        match frame_in(inbound[0]) {
            Some(frame) => seq![frame] + later,
            None => later,
        }
    }
}

/// The session after the receive loop went through a run of inbound
/// messages.
pub open spec fn after_run(session: ViewingSession, inbound: Seq<Inbound>) -> ViewingSession
    decreases inbound.len(),
{
    if inbound.len() == 0 {
        session
    } else if !(session.state is Connected) {
        session.polled()
    } else {
        after_run(session.received(inbound[0]), inbound.skip(1))
    }
}

proof fn lemma_skip_one_message(
    session: ViewingSession,
    before: Seq<Inbound>,
    bad: Inbound,
    behind: Seq<Inbound>,
)
    requires
        !(session.state is Connecting),
        frame_in(bad) is None,
        !ends_stream(bad),
    ensures
        received_frames(session, before + seq![bad] + behind) == received_frames(
            session,
            before + behind,
        ),
        after_run(session, before + seq![bad] + behind) == after_run(session, before + behind),
    decreases before.len(),
{
    let with = before + seq![bad] + behind;
    let without = before + behind;
    if before.len() == 0 {
        assert(with[0] == bad);
        assert(with.skip(1) =~= behind);
        assert(without =~= behind);
    } else {
        assert(with[0] == before[0]);
        assert(without[0] == before[0]);
        assert(with.skip(1) =~= before.skip(1) + seq![bad] + behind);
        assert(without.skip(1) =~= before.skip(1) + behind);
        lemma_skip_one_message(session.received(before[0]), before.skip(1), bad, behind);
    }
}

/// A message that carries no frame and does not end the stream changes
/// nothing: the loop goes on, the session ends up as it would have, and the
/// frames in the messages before and behind it are passed on as if it had
/// not come.
pub proof fn lemma_malformed_message_is_skipped(
    session: ViewingSession,
    before: Seq<Inbound>,
    bad: Inbound,
    behind: Seq<Inbound>,
)
    requires
        session.state is Connected,
        frame_in(bad) is None,
        !ends_stream(bad),
    ensures
        received_frames(session, before + seq![bad] + behind) == received_frames(
            session,
            before + behind,
        ),
        after_run(session, before + seq![bad] + behind) == after_run(session, before + behind),
{
    lemma_skip_one_message(session, before, bad, behind);
}

} // verus!
